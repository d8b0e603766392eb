//! Writing a PLY header as text lines, the inverse of reading one.
use vstd::prelude::*;

use crate::header::{
    KW_COMMENT, KW_ELEMENT, KW_END_HEADER, KW_FORMAT, KW_LIST, KW_OBJ_INFO, KW_PLY, KW_PROPERTY,
};
use crate::text::{is_canonical_text, is_word, join_words};
use crate::types::{
    spec_format_name, spec_scalar_name, strings_view, PlyHeader, PropertyType, SpecElement,
    SpecHeader, SpecProperty,
};

verus! {

pub const DIGIT_CHARS: [char; 10] = ['0', '1', '2', '3', '4', '5', '6', '7', '8', '9'];

/// The version written in the `format` line.
pub const VERSION: [char; 3] = ['1', '.', '0'];

/// The decimal digits of `n`, most significant first, without leading zeros.
pub open spec fn usize_digits(n: nat) -> Seq<char>
    decreases n,
{
    if n < 10 {
        seq![DIGIT_CHARS@[n as int]]
    } else {
        usize_digits(n / 10).push(DIGIT_CHARS@[(n % 10) as int])
    }
}

/// A header line: the words joined by single spaces, then a newline.
pub open spec fn line_of(words: Seq<Seq<char>>) -> Seq<char> {
    join_words(words) + seq!['\n']
}

pub open spec fn format_line(h: SpecHeader) -> Seq<char> {
    line_of(seq![KW_FORMAT@, spec_format_name(h.format), VERSION@])
}

pub open spec fn comment_line(c: Seq<char>) -> Seq<char> {
    line_of(seq![KW_COMMENT@, c])
}

pub open spec fn obj_info_line(c: Seq<char>) -> Seq<char> {
    line_of(seq![KW_OBJ_INFO@, c])
}

pub open spec fn element_line(e: SpecElement) -> Seq<char> {
    line_of(seq![KW_ELEMENT@, e.name, usize_digits(e.count as nat)])
}

pub open spec fn property_words(p: SpecProperty) -> Seq<Seq<char>> {
    match p.property_type {
        PropertyType::Scalar(t) => seq![KW_PROPERTY@, spec_scalar_name(t), p.name],
        PropertyType::List { count_type, data_type } => seq![
            KW_PROPERTY@,
            KW_LIST@,
            spec_scalar_name(count_type),
            spec_scalar_name(data_type),
            p.name,
        ],
    }
}

pub open spec fn property_line(p: SpecProperty) -> Seq<char> {
    line_of(property_words(p))
}

/// The lines of one element: its `element` line, then one line per property.
pub open spec fn element_block(e: SpecElement) -> Seq<Seq<char>> {
    seq![element_line(e)] + e.properties.map_values(|p: SpecProperty| property_line(p))
}

pub open spec fn element_lines(es: Seq<SpecElement>) -> Seq<Seq<char>>
    decreases es.len(),
{
    if es.len() == 0 {
        Seq::empty()
    } else {
        element_lines(es.drop_last()) + element_block(es.last())
    }
}

/// The lines of a header: `ply`, the format, the comments, the `obj_info`
/// lines, each element with its properties, and `end_header`.
pub open spec fn spec_header_lines(h: SpecHeader) -> Seq<Seq<char>> {
    seq![line_of(seq![KW_PLY@]), format_line(h)] + h.comments.map_values(
        |c: Seq<char>| comment_line(c),
    ) + h.obj_info.map_values(|c: Seq<char>| obj_info_line(c)) + element_lines(h.elements)
        + seq![line_of(seq![KW_END_HEADER@])]
}

/// A header that its lines describe exactly: names are single words, and
/// comments and `obj_info` lines are words separated by single spaces.
pub open spec fn header_writable(h: SpecHeader) -> bool {
    &&& forall|i: int| 0 <= i < h.comments.len() ==> is_canonical_text(#[trigger] h.comments[i])
    &&& forall|i: int| 0 <= i < h.obj_info.len() ==> is_canonical_text(#[trigger] h.obj_info[i])
    &&& forall|i: int|
        0 <= i < h.elements.len() ==> {
            &&& is_word((#[trigger] h.elements[i]).name)
            &&& forall|j: int|
                0 <= j < h.elements[i].properties.len() ==> is_word(
                    (#[trigger] h.elements[i].properties[j]).name,
                )
        }
}

fn digit_str(d: usize) -> (r: &'static str)
    requires
        d < 10,
    ensures
        r@ == seq![DIGIT_CHARS@[d as int]],
{
    proof {
        reveal_strlit("0");
        reveal_strlit("1");
        reveal_strlit("2");
        reveal_strlit("3");
        reveal_strlit("4");
        reveal_strlit("5");
        reveal_strlit("6");
        reveal_strlit("7");
        reveal_strlit("8");
        reveal_strlit("9");
    }
    if d == 0 {
        "0"
    } else if d == 1 {
        "1"
    } else if d == 2 {
        "2"
    } else if d == 3 {
        "3"
    } else if d == 4 {
        "4"
    } else if d == 5 {
        "5"
    } else if d == 6 {
        "6"
    } else if d == 7 {
        "7"
    } else if d == 8 {
        "8"
    } else {
        "9"
    }
}

fn append_digits(s: &mut String, n: usize)
    ensures
        final(s)@ == old(s)@ + usize_digits(n as nat),
    decreases n,
{
    if n >= 10 {
        append_digits(s, n / 10);
    }
    s.append(digit_str(n % 10));
    assert(s@ =~= old(s)@ + usize_digits(n as nat));
}

/// The decimal text of a count, as `Display` writes it.
pub fn count_text(n: usize) -> (r: String)
    ensures
        r@ == usize_digits(n as nat),
{
    let mut s = String::new();
    append_digits(&mut s, n);
    assert(s@ =~= usize_digits(n as nat));
    s
}

/// The words joined by single spaces, then a newline.
fn line_from(words: &Vec<&str>) -> (r: String)
    ensures
        r@ == line_of(words@.map_values(|w: &str| w@)),
{
    let ghost ws = words@.map_values(|w: &str| w@);
    let mut s = String::new();
    let mut k: usize = 0;
    assert(ws.subrange(0, 0) =~= Seq::<Seq<char>>::empty());
    while k < words.len()
        invariant
            ws == words@.map_values(|w: &str| w@),
            k <= words@.len(),
            s@ == join_words(ws.subrange(0, k as int)),
        decreases words.len() - k,
    {
        let ghost sub = ws.subrange(0, k + 1);
        assert(sub.drop_last() =~= ws.subrange(0, k as int));
        assert(sub.last() == words@[k as int]@);
        if k > 0 {
            proof {
                reveal_strlit(" ");
            }
            s.append(" ");
        }
        s.append(words[k]);
        k = k + 1;
    }
    assert(ws.subrange(0, words@.len() as int) =~= ws);
    proof {
        reveal_strlit("\n");
    }
    s.append("\n");
    s
}


impl PlyHeader {
    /// The header as text lines, each ending with a newline: `ply`, the
    /// format, the comments, the `obj_info` lines, each element with its
    /// properties, and `end_header`.
    pub fn to_lines(&self) -> (r: Vec<String>)
        ensures
            strings_view(r@) == spec_header_lines(self@),
    {
        let ghost h = self@;
        proof {
            reveal_strlit("ply");
            reveal_strlit("format");
            reveal_strlit("1.0");
            reveal_strlit("comment");
            reveal_strlit("obj_info");
            reveal_strlit("element");
            reveal_strlit("property");
            reveal_strlit("list");
            reveal_strlit("end_header");
            assert("ply"@ =~= KW_PLY@);
            assert("format"@ =~= KW_FORMAT@);
            assert("1.0"@ =~= VERSION@);
            assert("comment"@ =~= KW_COMMENT@);
            assert("obj_info"@ =~= KW_OBJ_INFO@);
            assert("element"@ =~= KW_ELEMENT@);
            assert("property"@ =~= KW_PROPERTY@);
            assert("list"@ =~= KW_LIST@);
            assert("end_header"@ =~= KW_END_HEADER@);
        }
        let mut lines: Vec<String> = Vec::new();
        let w = vec!["ply"];
        assert(w@.map_values(|w: &str| w@) =~= seq![KW_PLY@]);
        lines.push(line_from(&w));
        let w = vec!["format", self.format.name(), "1.0"];
        assert(w@.map_values(|w: &str| w@) =~= seq![KW_FORMAT@, spec_format_name(h.format), VERSION@]);
        lines.push(line_from(&w));
        let ghost head = seq![line_of(seq![KW_PLY@]), format_line(h)];
        assert(strings_view(lines@) =~= head);
        let mut i: usize = 0;
        while i < self.comments.len()
            invariant
                h == self@,
                "comment"@ == KW_COMMENT@,
                i <= self.comments@.len(),
                strings_view(lines@) == head + h.comments.take(i as int).map_values(
                    |c: Seq<char>| comment_line(c),
                ),
            decreases self.comments.len() - i,
        {
            let ghost before = strings_view(lines@);
            let w = vec!["comment", self.comments[i].as_str()];
            assert(w@.map_values(|w: &str| w@) =~= seq![KW_COMMENT@, h.comments[i as int]]);
            let l = line_from(&w);
            lines.push(l);
            assert(strings_view(lines@) =~= before.push(l@));
            assert(h.comments.take(i + 1).map_values(|c: Seq<char>| comment_line(c)) =~= h.comments.take(
                i as int,
            ).map_values(|c: Seq<char>| comment_line(c)).push(comment_line(h.comments[i as int])));
            i = i + 1;
        }
        assert(h.comments.take(h.comments.len() as int) =~= h.comments);
        let ghost head2 = head + h.comments.map_values(|c: Seq<char>| comment_line(c));
        let mut i: usize = 0;
        while i < self.obj_info.len()
            invariant
                h == self@,
                "obj_info"@ == KW_OBJ_INFO@,
                i <= self.obj_info@.len(),
                strings_view(lines@) == head2 + h.obj_info.take(i as int).map_values(
                    |c: Seq<char>| obj_info_line(c),
                ),
            decreases self.obj_info.len() - i,
        {
            let ghost before = strings_view(lines@);
            let w = vec!["obj_info", self.obj_info[i].as_str()];
            assert(w@.map_values(|w: &str| w@) =~= seq![KW_OBJ_INFO@, h.obj_info[i as int]]);
            let l = line_from(&w);
            lines.push(l);
            assert(strings_view(lines@) =~= before.push(l@));
            assert(h.obj_info.take(i + 1).map_values(|c: Seq<char>| obj_info_line(c)) =~= h.obj_info.take(
                i as int,
            ).map_values(|c: Seq<char>| obj_info_line(c)).push(obj_info_line(h.obj_info[i as int])));
            i = i + 1;
        }
        assert(h.obj_info.take(h.obj_info.len() as int) =~= h.obj_info);
        let ghost head3 = head2 + h.obj_info.map_values(|c: Seq<char>| obj_info_line(c));
        let mut i: usize = 0;
        assert(h.elements.take(0) =~= Seq::<SpecElement>::empty());
        while i < self.elem_defs.len()
            invariant
                h == self@,
                "element"@ == KW_ELEMENT@,
                "property"@ == KW_PROPERTY@,
                "list"@ == KW_LIST@,
                i <= self.elem_defs@.len(),
                strings_view(lines@) == head3 + element_lines(h.elements.take(i as int)),
            decreases self.elem_defs.len() - i,
        {
            let e = &self.elem_defs[i];
            let ghost ev = h.elements[i as int];
            assert(ev == e@);
            let ghost before = strings_view(lines@);
            let ct = count_text(e.count);
            let w = vec!["element", e.name.as_str(), ct.as_str()];
            assert(w@.map_values(|w: &str| w@) =~= seq![KW_ELEMENT@, ev.name, usize_digits(ev.count as nat)]);
            let l = line_from(&w);
            lines.push(l);
            assert(strings_view(lines@) =~= before + seq![element_line(ev)]);
            let ghost before2 = before + seq![element_line(ev)];
            let mut j: usize = 0;
            while j < e.properties.len()
                invariant
                    ev == e@,
                    "property"@ == KW_PROPERTY@,
                    "list"@ == KW_LIST@,
                    j <= e.properties@.len(),
                    strings_view(lines@) == before2 + ev.properties.take(j as int).map_values(
                        |p: SpecProperty| property_line(p),
                    ),
                decreases e.properties.len() - j,
            {
                let p = &e.properties[j];
                let ghost pv = ev.properties[j as int];
                assert(pv == p@);
                let ghost before3 = strings_view(lines@);
                let l = match p.property_type {
                    PropertyType::Scalar(t) => {
                        let w = vec!["property", t.name(), p.name.as_str()];
                        assert(w@.map_values(|w: &str| w@) =~= property_words(pv));
                        line_from(&w)
                    },
                    PropertyType::List { count_type, data_type } => {
                        let w = vec![
                            "property",
                            "list",
                            count_type.name(),
                            data_type.name(),
                            p.name.as_str(),
                        ];
                        assert(w@.map_values(|w: &str| w@) =~= property_words(pv));
                        line_from(&w)
                    },
                };
                lines.push(l);
                assert(strings_view(lines@) =~= before3.push(l@));
                assert(ev.properties.take(j + 1).map_values(|p: SpecProperty| property_line(p))
                    =~= ev.properties.take(j as int).map_values(|p: SpecProperty| property_line(p)).push(
                    property_line(pv),
                ));
                j = j + 1;
            }
            assert(ev.properties.take(ev.properties.len() as int) =~= ev.properties);
            assert(h.elements.take(i + 1).drop_last() =~= h.elements.take(i as int));
            assert(h.elements.take(i + 1).last() == ev);
            assert(element_lines(h.elements.take(i + 1)) == element_lines(h.elements.take(i as int))
                + element_block(ev));
            assert(strings_view(lines@) =~= head3 + element_lines(h.elements.take(i + 1)));
            i = i + 1;
        }
        assert(h.elements.take(h.elements.len() as int) =~= h.elements);
        let ghost before = strings_view(lines@);
        let w = vec!["end_header"];
        assert(w@.map_values(|w: &str| w@) =~= seq![KW_END_HEADER@]);
        let l = line_from(&w);
        lines.push(l);
        assert(strings_view(lines@) =~= spec_header_lines(h));
        lines
    }
}

} // verus!
