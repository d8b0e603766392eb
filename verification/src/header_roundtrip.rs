//! A written header reads back as the header it was written from.
use vstd::prelude::*;

use crate::error::PlyError;
use crate::header::{
    closed_elements, initial_state, is_end_line, spec_finish, spec_parse_header, spec_run,
    spec_step, with_property, HeaderState, KW_COMMENT, KW_ELEMENT, KW_END_HEADER, KW_FORMAT,
    KW_LIST, KW_OBJ_INFO, KW_PLY, KW_PROPERTY,
};
use crate::header_out::{
    comment_line, element_block, element_line, element_lines, format_line, header_writable,
    line_of, obj_info_line, property_line, property_words, spec_header_lines, usize_digits,
    DIGIT_CHARS, VERSION,
};
use crate::text::{
    all_digits, digit_value, digits_value, is_canonical_text, is_digit, is_word, is_ws,
    join_words, lemma_split_concat, lemma_split_join, lemma_split_word, lemma_split_ws_tail,
    lemma_trim_starts_like, spec_parse_usize, split_ws,
};
use crate::types::{
    lemma_format_name_roundtrip, lemma_scalar_name_roundtrip, spec_format_name,
    spec_scalar_name, PlyFormat, PropertyType, ScalarType, SpecElement, SpecHeader,
    SpecProperty,
};

verus! {

proof fn lemma_keywords()
    ensures
        is_word(KW_PLY@),
        is_word(KW_END_HEADER@),
        is_word(KW_FORMAT@),
        is_word(KW_COMMENT@),
        is_word(KW_OBJ_INFO@),
        is_word(KW_ELEMENT@),
        is_word(KW_PROPERTY@),
        is_word(KW_LIST@),
        is_word(VERSION@),
        KW_END_HEADER@.len() == 10 && KW_END_HEADER@[1] == 'n',
        KW_PLY@.len() == 3 && KW_PLY@[1] == 'l',
        KW_FORMAT@.len() == 6 && KW_FORMAT@[1] == 'o',
        KW_COMMENT@.len() == 7 && KW_COMMENT@[1] == 'o',
        KW_OBJ_INFO@.len() == 8 && KW_OBJ_INFO@[1] == 'b',
        KW_ELEMENT@.len() == 7 && KW_ELEMENT@[1] == 'l',
        KW_PROPERTY@.len() == 8 && KW_PROPERTY@[1] == 'r',
        KW_FORMAT@[0] == 'f',
        KW_COMMENT@[0] == 'c',
        KW_OBJ_INFO@[0] == 'o',
        KW_ELEMENT@[0] == 'e',
        KW_PROPERTY@[0] == 'p',
        KW_PLY@[0] == 'p',
        KW_LIST@.len() == 4 && KW_LIST@[0] == 'l',
        KW_COMMENT@ != KW_FORMAT@,
        KW_OBJ_INFO@ != KW_FORMAT@,
        KW_OBJ_INFO@ != KW_COMMENT@,
        KW_ELEMENT@ != KW_FORMAT@,
        KW_ELEMENT@ != KW_COMMENT@,
        KW_ELEMENT@ != KW_OBJ_INFO@,
        KW_PROPERTY@ != KW_FORMAT@,
        KW_PROPERTY@ != KW_COMMENT@,
        KW_PROPERTY@ != KW_OBJ_INFO@,
        KW_PROPERTY@ != KW_ELEMENT@,
{
    assert(KW_PLY@ =~= seq!['p', 'l', 'y']);
    assert(KW_END_HEADER@ =~= seq!['e', 'n', 'd', '_', 'h', 'e', 'a', 'd', 'e', 'r']);
    assert(KW_FORMAT@ =~= seq!['f', 'o', 'r', 'm', 'a', 't']);
    assert(KW_COMMENT@ =~= seq!['c', 'o', 'm', 'm', 'e', 'n', 't']);
    assert(KW_OBJ_INFO@ =~= seq!['o', 'b', 'j', '_', 'i', 'n', 'f', 'o']);
    assert(KW_ELEMENT@ =~= seq!['e', 'l', 'e', 'm', 'e', 'n', 't']);
    assert(KW_PROPERTY@ =~= seq!['p', 'r', 'o', 'p', 'e', 'r', 't', 'y']);
    assert(KW_LIST@ =~= seq!['l', 'i', 's', 't']);
    assert(VERSION@ =~= seq!['1', '.', '0']);
    assert(KW_COMMENT@[0] != KW_ELEMENT@[0]);
    assert(KW_OBJ_INFO@[0] != KW_PROPERTY@[0]);
}

proof fn lemma_scalar_name_word(t: ScalarType)
    ensures
        is_word(spec_scalar_name(t)),
        spec_scalar_name(t) != KW_LIST@,
        spec_scalar_name(t).len() >= 1,
{
    lemma_keywords();
    let n = spec_scalar_name(t);
    match t {
        ScalarType::I8 => {
            assert(n =~= seq!['i', 'n', 't', '8']);
        },
        ScalarType::U8 => {
            assert(n =~= seq!['u', 'i', 'n', 't', '8']);
        },
        ScalarType::I16 => {
            assert(n =~= seq!['i', 'n', 't', '1', '6']);
        },
        ScalarType::U16 => {
            assert(n =~= seq!['u', 'i', 'n', 't', '1', '6']);
        },
        ScalarType::I32 => {
            assert(n =~= seq!['i', 'n', 't', '3', '2']);
        },
        ScalarType::U32 => {
            assert(n =~= seq!['u', 'i', 'n', 't', '3', '2']);
        },
        ScalarType::F32 => {
            assert(n =~= seq!['f', 'l', 'o', 'a', 't', '3', '2']);
        },
        ScalarType::F64 => {
            assert(n =~= seq!['f', 'l', 'o', 'a', 't', '6', '4']);
        },
    }
    assert(n[0] != KW_LIST@[0]);
}

proof fn lemma_format_name_word(f: PlyFormat)
    ensures
        is_word(spec_format_name(f)),
{
    let n = spec_format_name(f);
    match f {
        PlyFormat::Ascii => {
            assert(n =~= seq!['a', 's', 'c', 'i', 'i']);
        },
        PlyFormat::BinaryLittleEndian => {
            assert(n =~= seq![
                'b', 'i', 'n', 'a', 'r', 'y', '_', 'l', 'i', 't', 't', 'l', 'e', '_', 'e', 'n',
                'd', 'i', 'a', 'n',
            ]);
        },
        PlyFormat::BinaryBigEndian => {
            assert(n =~= seq![
                'b', 'i', 'n', 'a', 'r', 'y', '_', 'b', 'i', 'g', '_', 'e', 'n', 'd', 'i', 'a',
                'n',
            ]);
        },
    }
}

proof fn lemma_digit_char(d: int)
    requires
        0 <= d < 10,
    ensures
        is_digit(DIGIT_CHARS@[d]),
        digit_value(DIGIT_CHARS@[d]) == d,
        !is_ws(DIGIT_CHARS@[d]),
{
    assert(DIGIT_CHARS@ =~= seq!['0', '1', '2', '3', '4', '5', '6', '7', '8', '9']);
}

proof fn lemma_usize_digits(n: nat)
    ensures
        is_word(usize_digits(n)),
        all_digits(usize_digits(n)),
        digits_value(usize_digits(n)) == n,
    decreases n,
{
    let s = usize_digits(n);
    if n < 10 {
        lemma_digit_char(n as int);
        assert(s.drop_last() =~= Seq::<char>::empty());
        assert(digits_value(Seq::<char>::empty()) == 0);
    } else {
        lemma_usize_digits(n / 10);
        lemma_digit_char((n % 10) as int);
        let p = usize_digits(n / 10);
        assert(s.drop_last() =~= p);
        assert(n == (n / 10) * 10 + n % 10) by (nonlinear_arith);
        assert forall|i: int| 0 <= i < s.len() implies !is_ws(#[trigger] s[i]) && is_digit(s[i]) by {
            if i < s.len() - 1 {
                assert(s[i] == p[i]);
            }
        }
    }
}

proof fn lemma_parse_usize_digits(n: usize)
    ensures
        spec_parse_usize(usize_digits(n as nat)) == Some(n),
{
    lemma_usize_digits(n as nat);
    let s = usize_digits(n as nat);
    assert(is_digit(s[0]));
}

proof fn lemma_join_prefix(ws: Seq<Seq<char>>)
    requires
        ws.len() > 0,
    ensures
        join_words(ws).len() >= ws[0].len(),
        forall|i: int| 0 <= i < ws[0].len() ==> #[trigger] join_words(ws)[i] == ws[0][i],
    decreases ws.len(),
{
    if ws.len() > 1 {
        lemma_join_prefix(ws.drop_last());
        assert(ws.drop_last()[0] == ws[0]);
        let a = join_words(ws.drop_last());
        assert forall|i: int| 0 <= i < ws[0].len() implies #[trigger] join_words(ws)[i] == ws[0][i] by {
            assert(join_words(ws) == a + seq![' '] + ws.last());
            assert((a + seq![' '] + ws.last())[i] == a[i]);
        }
    }
}

/// A line that starts with a keyword other than `end_header` does not end the header.
proof fn lemma_not_end(ws: Seq<Seq<char>>)
    requires
        ws.len() > 0,
        ws[0].len() >= 2,
        !is_ws(ws[0][0]),
        ws[0][1] != 'n',
    ensures
        !is_end_line(line_of(ws)),
{
    lemma_keywords();
    lemma_join_prefix(ws);
    let line = line_of(ws);
    assert(line[0] == join_words(ws)[0]);
    assert(line[1] == join_words(ws)[1]);
    if is_end_line(line) {
        lemma_trim_starts_like(line, KW_END_HEADER@);
        assert(KW_END_HEADER@[1] == line[1]);
    }
}

/// The words of a line written from words.
proof fn lemma_split_line(ws: Seq<Seq<char>>)
    requires
        forall|k: int| 0 <= k < ws.len() ==> is_word(#[trigger] ws[k]),
    ensures
        split_ws(line_of(ws)) == ws,
{
    lemma_split_join(ws);
    lemma_split_ws_tail(join_words(ws), '\n');
    assert(join_words(ws).push('\n') =~= line_of(ws));
}

/// The words of a line written from a keyword and a text.
proof fn lemma_split_text_line(kw: Seq<char>, c: Seq<char>)
    requires
        is_word(kw),
    ensures
        split_ws(line_of(seq![kw, c])) == seq![kw] + split_ws(c),
{
    let ws = seq![kw, c];
    assert(ws.drop_last() =~= seq![kw]);
    assert(join_words(seq![kw]) == kw);
    assert(join_words(ws) == kw + seq![' '] + c);
    let a = kw + seq![' '];
    assert(line_of(ws) =~= a + c.push('\n'));
    lemma_split_concat(a, c.push('\n'));
    lemma_split_ws_tail(kw, ' ');
    assert(kw.push(' ') =~= a);
    lemma_split_word(kw);
    lemma_split_ws_tail(c, '\n');
}


proof fn lemma_trim_single(w: Seq<char>)
    requires
        is_word(w),
    ensures
        crate::text::trim(line_of(seq![w])) == w,
{
    let line = line_of(seq![w]);
    assert(join_words(seq![w]) == w);
    assert(line =~= w.push('\n'));
    assert(!is_ws(w[0]));
    assert(line[0] == w[0]);
    assert(crate::text::trim_start(line) == line);
    assert(line.drop_last() =~= w);
    assert(!is_ws(w[w.len() - 1]));
    assert(crate::text::trim_end(w) == w);
}

proof fn lemma_step_ply()
    ensures
        spec_step(initial_state(), line_of(seq![KW_PLY@])) == Ok::<HeaderState, PlyError>(
            HeaderState { magic: true, ..initial_state() },
        ),
{
    lemma_keywords();
    lemma_trim_single(KW_PLY@);
}

proof fn lemma_step_end(st: HeaderState)
    requires
        st.magic,
    ensures
        spec_step(st, line_of(seq![KW_END_HEADER@])) == Ok::<HeaderState, PlyError>(
            HeaderState { done: true, ..st },
        ),
{
    lemma_keywords();
    lemma_trim_single(KW_END_HEADER@);
    let line = line_of(seq![KW_END_HEADER@]);
    assert(line.last() == '\n');
}

proof fn lemma_step_format(st: HeaderState, h: SpecHeader)
    requires
        st.magic,
    ensures
        spec_step(st, format_line(h)) == Ok::<HeaderState, PlyError>(
            HeaderState { format: Some(h.format), ..st },
        ),
{
    lemma_keywords();
    lemma_format_name_word(h.format);
    lemma_format_name_roundtrip(h.format);
    let ws = seq![KW_FORMAT@, spec_format_name(h.format), VERSION@];
    lemma_split_line(ws);
    lemma_not_end(ws);
}

proof fn lemma_step_comment(st: HeaderState, c: Seq<char>)
    requires
        st.magic,
        is_canonical_text(c),
    ensures
        spec_step(st, comment_line(c)) == Ok::<HeaderState, PlyError>(
            HeaderState { comments: st.comments.push(c), ..st },
        ),
{
    lemma_keywords();
    let ws = seq![KW_COMMENT@, c];
    lemma_split_text_line(KW_COMMENT@, c);
    lemma_not_end(ws);
    let parts = split_ws(line_of(ws));
    assert(parts.skip(1) =~= split_ws(c));
}

proof fn lemma_step_obj_info(st: HeaderState, c: Seq<char>)
    requires
        st.magic,
        is_canonical_text(c),
    ensures
        spec_step(st, obj_info_line(c)) == Ok::<HeaderState, PlyError>(
            HeaderState { obj_info: st.obj_info.push(c), ..st },
        ),
{
    lemma_keywords();
    let ws = seq![KW_OBJ_INFO@, c];
    lemma_split_text_line(KW_OBJ_INFO@, c);
    lemma_not_end(ws);
    let parts = split_ws(line_of(ws));
    assert(parts.skip(1) =~= split_ws(c));
}

/// The state once an `element` line has been read.
pub open spec fn started_element(st: HeaderState, e: SpecElement) -> HeaderState {
    HeaderState {
        elements: closed_elements(st),
        current: Some(SpecElement { name: e.name, count: e.count, properties: Seq::empty() }),
        ..st
    }
}

proof fn lemma_step_element(st: HeaderState, e: SpecElement)
    requires
        st.magic,
        is_word(e.name),
    ensures
        spec_step(st, element_line(e)) == Ok::<HeaderState, PlyError>(started_element(st, e)),
{
    lemma_keywords();
    lemma_usize_digits(e.count as nat);
    lemma_parse_usize_digits(e.count);
    let ws = seq![KW_ELEMENT@, e.name, usize_digits(e.count as nat)];
    lemma_split_line(ws);
    lemma_not_end(ws);
}

proof fn lemma_step_property(st: HeaderState, e: SpecElement, p: SpecProperty)
    requires
        st.magic,
        st.current == Some(e),
        is_word(p.name),
    ensures
        spec_step(st, property_line(p)) == Ok::<HeaderState, PlyError>(with_property(st, e, p)),
{
    lemma_keywords();
    let ws = property_words(p);
    match p.property_type {
        PropertyType::Scalar(t) => {
            lemma_scalar_name_word(t);
            lemma_scalar_name_roundtrip(t);
        },
        PropertyType::List { count_type, data_type } => {
            lemma_scalar_name_word(count_type);
            lemma_scalar_name_word(data_type);
            lemma_scalar_name_roundtrip(count_type);
            lemma_scalar_name_roundtrip(data_type);
        },
    }
    lemma_split_line(ws);
    lemma_not_end(ws);
}


proof fn lemma_run_next(st: HeaderState, lines: Seq<Seq<char>>, i: nat, next: HeaderState)
    requires
        i < lines.len(),
        spec_step(st, lines[i as int]) == Ok::<HeaderState, PlyError>(next),
        !next.done,
    ensures
        spec_run(st, lines, i) == spec_run(next, lines, i + 1),
{
}

proof fn lemma_run_comments(st: HeaderState, lines: Seq<Seq<char>>, i: nat, cs: Seq<Seq<char>>)
    requires
        st.magic,
        !st.done,
        i + cs.len() <= lines.len(),
        forall|j: int| 0 <= j < cs.len() ==> lines[i + j] == comment_line(#[trigger] cs[j]),
        forall|j: int| 0 <= j < cs.len() ==> is_canonical_text(#[trigger] cs[j]),
    ensures
        spec_run(st, lines, i) == spec_run(
            HeaderState { comments: st.comments + cs, ..st },
            lines,
            i + cs.len(),
        ),
    decreases cs.len(),
{
    if cs.len() == 0 {
        assert(HeaderState { comments: st.comments + cs, ..st } =~= st);
    } else {
        let st1 = HeaderState { comments: st.comments.push(cs[0]), ..st };
        assert(lines[i as int] == comment_line(cs[0]));
        lemma_step_comment(st, cs[0]);
        lemma_run_next(st, lines, i, st1);
        let rest = cs.drop_first();
        assert forall|j: int| 0 <= j < rest.len() implies lines[(i + 1) + j] == comment_line(
            #[trigger] rest[j],
        ) by {
            assert(rest[j] == cs[j + 1]);
        }
        assert forall|j: int| 0 <= j < rest.len() implies is_canonical_text(#[trigger] rest[j]) by {
            assert(rest[j] == cs[j + 1]);
        }
        lemma_run_comments(st1, lines, i + 1, rest);
        assert(st1.comments + rest =~= st.comments + cs);
        assert(HeaderState { comments: st1.comments + rest, ..st1 } =~= HeaderState {
            comments: st.comments + cs,
            ..st
        });
    }
}

proof fn lemma_run_obj_info(st: HeaderState, lines: Seq<Seq<char>>, i: nat, cs: Seq<Seq<char>>)
    requires
        st.magic,
        !st.done,
        i + cs.len() <= lines.len(),
        forall|j: int| 0 <= j < cs.len() ==> lines[i + j] == obj_info_line(#[trigger] cs[j]),
        forall|j: int| 0 <= j < cs.len() ==> is_canonical_text(#[trigger] cs[j]),
    ensures
        spec_run(st, lines, i) == spec_run(
            HeaderState { obj_info: st.obj_info + cs, ..st },
            lines,
            i + cs.len(),
        ),
    decreases cs.len(),
{
    if cs.len() == 0 {
        assert(HeaderState { obj_info: st.obj_info + cs, ..st } =~= st);
    } else {
        let st1 = HeaderState { obj_info: st.obj_info.push(cs[0]), ..st };
        assert(lines[i as int] == obj_info_line(cs[0]));
        lemma_step_obj_info(st, cs[0]);
        lemma_run_next(st, lines, i, st1);
        let rest = cs.drop_first();
        assert forall|j: int| 0 <= j < rest.len() implies lines[(i + 1) + j] == obj_info_line(
            #[trigger] rest[j],
        ) by {
            assert(rest[j] == cs[j + 1]);
        }
        assert forall|j: int| 0 <= j < rest.len() implies is_canonical_text(#[trigger] rest[j]) by {
            assert(rest[j] == cs[j + 1]);
        }
        lemma_run_obj_info(st1, lines, i + 1, rest);
        assert(st1.obj_info + rest =~= st.obj_info + cs);
        assert(HeaderState { obj_info: st1.obj_info + rest, ..st1 } =~= HeaderState {
            obj_info: st.obj_info + cs,
            ..st
        });
    }
}

proof fn lemma_run_props(
    st: HeaderState,
    e: SpecElement,
    lines: Seq<Seq<char>>,
    i: nat,
    ps: Seq<SpecProperty>,
)
    requires
        st.magic,
        !st.done,
        st.current == Some(e),
        i + ps.len() <= lines.len(),
        forall|j: int| 0 <= j < ps.len() ==> lines[i + j] == property_line(#[trigger] ps[j]),
        forall|j: int| 0 <= j < ps.len() ==> is_word((#[trigger] ps[j]).name),
    ensures
        spec_run(st, lines, i) == spec_run(
            HeaderState {
                current: Some(SpecElement { properties: e.properties + ps, ..e }),
                ..st
            },
            lines,
            i + ps.len(),
        ),
    decreases ps.len(),
{
    if ps.len() == 0 {
        assert(SpecElement { properties: e.properties + ps, ..e } =~= e);
        assert(HeaderState {
            current: Some(SpecElement { properties: e.properties + ps, ..e }),
            ..st
        } =~= st);
    } else {
        let e1 = SpecElement { properties: e.properties.push(ps[0]), ..e };
        let st1 = with_property(st, e, ps[0]);
        assert(lines[i as int] == property_line(ps[0]));
        assert(is_word(ps[0].name));
        lemma_step_property(st, e, ps[0]);
        lemma_run_next(st, lines, i, st1);
        let rest = ps.drop_first();
        assert forall|j: int| 0 <= j < rest.len() implies lines[(i + 1) + j] == property_line(
            #[trigger] rest[j],
        ) by {
            assert(rest[j] == ps[j + 1]);
        }
        assert forall|j: int| 0 <= j < rest.len() implies is_word((#[trigger] rest[j]).name) by {
            assert(rest[j] == ps[j + 1]);
        }
        assert(st1.current == Some(e1));
        lemma_run_props(st1, e1, lines, i + 1, rest);
        assert(e1.properties + rest =~= e.properties + ps);
        assert(SpecElement { properties: e1.properties + rest, ..e1 } =~= SpecElement {
            properties: e.properties + ps,
            ..e
        });
        assert(HeaderState {
            current: Some(SpecElement { properties: e1.properties + rest, ..e1 }),
            ..st1
        } =~= HeaderState {
            current: Some(SpecElement { properties: e.properties + ps, ..e }),
            ..st
        });
    }
}

/// The state once the lines of some elements have been read.
pub open spec fn after_elements(st: HeaderState, es: Seq<SpecElement>) -> HeaderState {
    if es.len() == 0 {
        st
    } else {
        HeaderState {
            elements: closed_elements(st) + es.drop_last(),
            current: Some(es.last()),
            ..st
        }
    }
}

proof fn lemma_after_elements_closed(st: HeaderState, es: Seq<SpecElement>)
    ensures
        closed_elements(after_elements(st, es)) == closed_elements(st) + es,
{
    if es.len() == 0 {
        assert(closed_elements(st) + es =~= closed_elements(st));
    } else {
        assert((closed_elements(st) + es.drop_last()).push(es.last()) =~= closed_elements(st) + es);
    }
}

pub open spec fn elements_writable(es: Seq<SpecElement>) -> bool {
    forall|k: int|
        0 <= k < es.len() ==> {
            &&& is_word((#[trigger] es[k]).name)
            &&& forall|j: int|
                0 <= j < es[k].properties.len() ==> is_word((#[trigger] es[k].properties[j]).name)
        }
}

proof fn lemma_run_elements(st: HeaderState, lines: Seq<Seq<char>>, i: nat, es: Seq<SpecElement>)
    requires
        st.magic,
        !st.done,
        elements_writable(es),
        i + element_lines(es).len() <= lines.len(),
        forall|j: int|
            0 <= j < element_lines(es).len() ==> lines[i + j] == #[trigger] element_lines(es)[j],
    ensures
        spec_run(st, lines, i) == spec_run(
            after_elements(st, es),
            lines,
            i + element_lines(es).len(),
        ),
    decreases es.len(),
{
    if es.len() > 0 {
        let init = es.drop_last();
        let e = es.last();
        let n0 = element_lines(init).len();
        let block = element_block(e);
        assert(element_lines(es) == element_lines(init) + block);
        assert forall|k: int| 0 <= k < init.len() implies {
            &&& is_word((#[trigger] init[k]).name)
            &&& forall|j: int|
                0 <= j < init[k].properties.len() ==> is_word(
                    (#[trigger] init[k].properties[j]).name,
                )
        } by {
            assert(init[k] == es[k]);
        }
        assert forall|j: int| 0 <= j < n0 implies lines[i + j] == #[trigger] element_lines(init)[j] by {
            assert(element_lines(es)[j] == element_lines(init)[j]);
        }
        lemma_run_elements(st, lines, i, init);
        let sa = after_elements(st, init);
        assert(e == es[es.len() - 1]);
        assert(is_word(e.name));
        assert(lines[(i + n0) as int] == element_lines(es)[n0 as int]);
        assert(element_lines(es)[n0 as int] == block[0]);
        lemma_step_element(sa, e);
        let sb = started_element(sa, e);
        lemma_run_next(sa, lines, i + n0, sb);
        let e0 = SpecElement { name: e.name, count: e.count, properties: Seq::empty() };
        let ps = e.properties;
        assert forall|j: int| 0 <= j < ps.len() implies lines[(i + n0 + 1) + j] == property_line(
            #[trigger] ps[j],
        ) by {
            assert(element_lines(es)[n0 + 1 + j] == block[1 + j]);
            assert(block[1 + j] == property_line(ps[j]));
        }
        assert forall|j: int| 0 <= j < ps.len() implies is_word((#[trigger] ps[j]).name) by {
            assert(ps[j] == es[es.len() - 1].properties[j]);
        }
        lemma_run_props(sb, e0, lines, i + n0 + 1, ps);
        lemma_after_elements_closed(st, init);
        assert(SpecElement { properties: e0.properties + ps, ..e0 } =~= e);
        assert(HeaderState {
            current: Some(SpecElement { properties: e0.properties + ps, ..e0 }),
            ..sb
        } =~= after_elements(st, es));
    }
}

/// Header round trip: the lines that `to_lines` writes for a header read back,
/// with `PlyHeader::parse`, as that same header, taking all the lines.
pub proof fn lemma_header_roundtrip(h: SpecHeader)
    requires
        header_writable(h),
    ensures
        spec_parse_header(spec_header_lines(h)) == Ok::<(SpecHeader, nat), PlyError>(
            (h, spec_header_lines(h).len()),
        ),
{
    let lines = spec_header_lines(h);
    let cl = h.comments.map_values(|c: Seq<char>| comment_line(c));
    let ol = h.obj_info.map_values(|c: Seq<char>| obj_info_line(c));
    let el = element_lines(h.elements);
    let head = seq![line_of(seq![KW_PLY@]), format_line(h)];
    assert(lines == head + cl + ol + el + seq![line_of(seq![KW_END_HEADER@])]);
    let nc = cl.len();
    let no = ol.len();
    let ne = el.len();
    let n = lines.len();
    assert(n == 2 + nc + no + ne + 1);
    let s0 = initial_state();
    let s1 = HeaderState { magic: true, ..s0 };
    lemma_step_ply();
    assert(lines[0] == line_of(seq![KW_PLY@]));
    lemma_run_next(s0, lines, 0, s1);
    let s2 = HeaderState { format: Some(h.format), ..s1 };
    lemma_step_format(s1, h);
    assert(lines[1] == format_line(h));
    lemma_run_next(s1, lines, 1, s2);
    assert forall|j: int| 0 <= j < h.comments.len() implies lines[2 + j] == comment_line(
        #[trigger] h.comments[j],
    ) by {
        assert(lines[2 + j] == cl[j]);
    }
    lemma_run_comments(s2, lines, 2, h.comments);
    let s3 = HeaderState { comments: s2.comments + h.comments, ..s2 };
    assert forall|j: int| 0 <= j < h.obj_info.len() implies lines[(2 + nc) + j] == obj_info_line(
        #[trigger] h.obj_info[j],
    ) by {
        assert(lines[2 + nc + j] == ol[j]);
    }
    lemma_run_obj_info(s3, lines, (2 + nc) as nat, h.obj_info);
    let s4 = HeaderState { obj_info: s3.obj_info + h.obj_info, ..s3 };
    assert forall|j: int| 0 <= j < ne implies lines[(2 + nc + no) + j] == #[trigger] el[j] by {
        assert(lines[2 + nc + no + j] == el[j]);
    }
    assert forall|k: int| 0 <= k < h.elements.len() implies {
        &&& is_word((#[trigger] h.elements[k]).name)
        &&& forall|j: int|
            0 <= j < h.elements[k].properties.len() ==> is_word(
                (#[trigger] h.elements[k].properties[j]).name,
            )
    } by {}
    lemma_run_elements(s4, lines, (2 + nc + no) as nat, h.elements);
    let s5 = after_elements(s4, h.elements);
    lemma_after_elements_closed(s4, h.elements);
    assert(lines[n - 1] == line_of(seq![KW_END_HEADER@]));
    lemma_step_end(s5);
    let s6 = HeaderState { done: true, ..s5 };
    assert(spec_run(s5, lines, (n - 1) as nat) == Ok::<(HeaderState, nat), PlyError>((s6, n)));
    assert(closed_elements(s6) =~= h.elements);
    assert(s6.comments =~= h.comments);
    assert(s6.obj_info =~= h.obj_info);
    assert(spec_finish(s6) == Ok::<SpecHeader, PlyError>(h));
}

} // verus!
