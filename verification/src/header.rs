//! The PLY header grammar, read one line at a time.
//!
//! A header starts with a `ply` line and ends with an `end_header` line that
//! is terminated by a newline. In between, `format`, `comment`, `obj_info`,
//! `element` and `property` lines describe the file; other lines are ignored.
use vstd::prelude::*;

use crate::error::{DeserializeError, PlyError};
use crate::text::{
    chars_of, join_words, parse_usize, range_eq, ranges_spell, spec_parse_usize, split_ws, trim,
    trim_bounds, word_ranges,
};
use crate::types::{
    elems_view, props_view, spec_format_from_name, spec_scalar_from_name, strings_view,
    ElementDef, PlyFormat, PlyHeader, PlyProperty, PropertyType, ScalarType, SpecElement,
    SpecHeader, SpecProperty,
};

verus! {

/// The keywords of the header grammar.
pub const KW_PLY: [char; 3] = ['p', 'l', 'y'];

pub const KW_END_HEADER: [char; 10] = ['e', 'n', 'd', '_', 'h', 'e', 'a', 'd', 'e', 'r'];

pub const KW_FORMAT: [char; 6] = ['f', 'o', 'r', 'm', 'a', 't'];

pub const KW_COMMENT: [char; 7] = ['c', 'o', 'm', 'm', 'e', 'n', 't'];

pub const KW_OBJ_INFO: [char; 8] = ['o', 'b', 'j', '_', 'i', 'n', 'f', 'o'];

pub const KW_ELEMENT: [char; 7] = ['e', 'l', 'e', 'm', 'e', 'n', 't'];

pub const KW_PROPERTY: [char; 8] = ['p', 'r', 'o', 'p', 'e', 'r', 't', 'y'];

pub const KW_LIST: [char; 4] = ['l', 'i', 's', 't'];

/// What the lines read so far have said.
#[verifier::ext_equal]
pub struct HeaderState {
    /// The `ply` line has been read.
    pub magic: bool,
    /// The `end_header` line has been read.
    pub done: bool,
    /// The encoding of the last `format` line.
    pub format: Option<PlyFormat>,
    /// The elements whose definition is complete.
    pub elements: Seq<SpecElement>,
    /// The element whose `property` lines are being read.
    pub current: Option<SpecElement>,
    /// The text of the `comment` lines.
    pub comments: Seq<Seq<char>>,
    /// The text of the `obj_info` lines.
    pub obj_info: Seq<Seq<char>>,
}

/// The state before any line has been read.
pub open spec fn initial_state() -> HeaderState {
    HeaderState {
        magic: false,
        done: false,
        format: None,
        elements: Seq::empty(),
        current: None,
        comments: Seq::empty(),
        obj_info: Seq::empty(),
    }
}

/// The elements once the current one is complete.
pub open spec fn closed_elements(st: HeaderState) -> Seq<SpecElement> {
    match st.current {
        Some(e) => st.elements.push(e),
        None => st.elements,
    }
}

/// A `format` line: `format <encoding> <version>`.
pub open spec fn step_format(st: HeaderState, parts: Seq<Seq<char>>) -> Result<HeaderState, PlyError> {
    if parts.len() < 3 {
        Err(PlyError::InvalidFormatLine)
    } else {
        match spec_format_from_name(parts[1]) {
            Some(f) => Ok(HeaderState { format: Some(f), ..st }),
            None => Err(PlyError::UnknownFormat(parts[1])),
        }
    }
}

/// An `element` line: `element <name> <count>`.
pub open spec fn step_element(st: HeaderState, parts: Seq<Seq<char>>) -> Result<
    HeaderState,
    PlyError,
> {
    if parts.len() < 3 {
        Err(PlyError::InvalidElementLine)
    } else {
        match spec_parse_usize(parts[2]) {
            Some(n) => Ok(
                HeaderState {
                    elements: closed_elements(st),
                    current: Some(
                        SpecElement { name: parts[1], count: n, properties: Seq::empty() },
                    ),
                    ..st
                },
            ),
            None => Err(PlyError::InvalidElementCount(parts[2])),
        }
    }
}

/// The state with one more property on the current element.
pub open spec fn with_property(st: HeaderState, e: SpecElement, p: SpecProperty) -> HeaderState {
    HeaderState {
        current: Some(SpecElement { properties: e.properties.push(p), ..e }),
        ..st
    }
}

/// A `property` line: `property <type> <name>` or
/// `property list <count type> <data type> <name>`.
pub open spec fn step_property(st: HeaderState, parts: Seq<Seq<char>>) -> Result<
    HeaderState,
    PlyError,
> {
    match st.current {
        None => Err(PlyError::PropertyWithoutElement),
        Some(e) => if parts.len() < 3 {
            Err(PlyError::InvalidPropertyLine)
        } else if parts[1] == KW_LIST@ {
            if parts.len() < 5 {
                Err(PlyError::InvalidListPropertyLine)
            } else {
                match spec_scalar_from_name(parts[2]) {
                    None => Err(PlyError::UnknownScalarType(parts[2])),
                    Some(c) => match spec_scalar_from_name(parts[3]) {
                        None => Err(PlyError::UnknownScalarType(parts[3])),
                        Some(d) => Ok(
                            with_property(
                                st,
                                e,
                                SpecProperty {
                                    name: parts[4],
                                    property_type: PropertyType::List {
                                        count_type: c,
                                        data_type: d,
                                    },
                                },
                            ),
                        ),
                    },
                }
            }
        } else {
            match spec_scalar_from_name(parts[1]) {
                None => Err(PlyError::UnknownScalarType(parts[1])),
                Some(t) => Ok(
                    with_property(
                        st,
                        e,
                        SpecProperty { name: parts[2], property_type: PropertyType::Scalar(t) },
                    ),
                ),
            }
        }
    }
}

/// A header line after `ply`, given its words; unknown keywords and blank lines are ignored.
pub open spec fn step_words(st: HeaderState, parts: Seq<Seq<char>>) -> Result<HeaderState, PlyError> {
    if parts.len() == 0 {
        Ok(st)
    } else if parts[0] == KW_FORMAT@ {
        step_format(st, parts)
    } else if parts[0] == KW_COMMENT@ {
        Ok(HeaderState { comments: st.comments.push(join_words(parts.skip(1))), ..st })
    } else if parts[0] == KW_OBJ_INFO@ {
        Ok(HeaderState { obj_info: st.obj_info.push(join_words(parts.skip(1))), ..st })
    } else if parts[0] == KW_ELEMENT@ {
        step_element(st, parts)
    } else if parts[0] == KW_PROPERTY@ {
        step_property(st, parts)
    } else {
        Ok(st)
    }
}

/// Whether a line ends the header: `end_header`, surrounded by any
/// whitespace, and terminated by a newline.
pub open spec fn is_end_line(line: Seq<char>) -> bool {
    trim(line) == KW_END_HEADER@ && line.len() > 0 && line.last() == '\n'
}

/// What one header line does to the state.
pub open spec fn spec_step(st: HeaderState, line: Seq<char>) -> Result<HeaderState, PlyError> {
    if !st.magic {
        if trim(line) == KW_PLY@ {
            Ok(HeaderState { magic: true, ..st })
        } else {
            Err(PlyError::MissingMagic)
        }
    } else if is_end_line(line) {
        Ok(HeaderState { done: true, ..st })
    } else {
        step_words(st, split_ws(line))
    }
}

/// The error when the input ends before the header does.
pub open spec fn spec_eof_error(st: HeaderState) -> PlyError {
    if st.magic {
        PlyError::UnexpectedEof
    } else {
        PlyError::MissingMagic
    }
}

/// The header that a complete state describes.
pub open spec fn spec_finish(st: HeaderState) -> Result<SpecHeader, PlyError> {
    match st.format {
        None => Err(PlyError::MissingFormat),
        Some(f) => Ok(
            SpecHeader {
                format: f,
                elements: closed_elements(st),
                comments: st.comments,
                obj_info: st.obj_info,
            },
        ),
    }
}

/// Reading `lines[i..]` from state `st`: the state when `end_header` is read
/// and the number of lines read in all.
pub open spec fn spec_run(st: HeaderState, lines: Seq<Seq<char>>, i: nat) -> Result<
    (HeaderState, nat),
    PlyError,
>
    decreases lines.len() - i,
{
    if i >= lines.len() {
        Err(spec_eof_error(st))
    } else {
        match spec_step(st, lines[i as int]) {
            Err(e) => Err(e),
            Ok(next) => if next.done {
                Ok((next, i + 1))
            } else {
                spec_run(next, lines, i + 1)
            },
        }
    }
}

/// The header that a sequence of lines holds, and the number of lines it takes.
pub open spec fn spec_parse_header(lines: Seq<Seq<char>>) -> Result<(SpecHeader, nat), PlyError> {
    match spec_run(initial_state(), lines, 0) {
        Err(e) => Err(e),
        Ok((st, n)) => match spec_finish(st) {
            Err(e) => Err(e),
            Ok(h) => Ok((h, n)),
        },
    }
}

/// Words of a line, with their bounds.
pub open spec fn words_of(cs: Seq<char>, r: Seq<(usize, usize)>) -> bool {
    ranges_spell(cs, r, split_ws(cs))
}

/// Reads a PLY header line by line.
pub struct HeaderParser {
    magic: bool,
    done: bool,
    format: Option<PlyFormat>,
    elements: Vec<ElementDef>,
    has_current: bool,
    cur_name: String,
    cur_count: usize,
    cur_props: Vec<PlyProperty>,
    comments: Vec<String>,
    obj_info: Vec<String>,
}

impl View for HeaderParser {
    type V = HeaderState;

    closed spec fn view(&self) -> HeaderState {
        HeaderState {
            magic: self.magic,
            done: self.done,
            format: self.format,
            elements: elems_view(self.elements@),
            current: if self.has_current {
                Some(
                    SpecElement {
                        name: self.cur_name@,
                        count: self.cur_count,
                        properties: props_view(self.cur_props@),
                    },
                )
            } else {
                None
            },
            comments: strings_view(self.comments@),
            obj_info: strings_view(self.obj_info@),
        }
    }
}

/// The words of a line from the `from`-th on, joined by single spaces.
fn join_range(line: &str, cs: &Vec<char>, r: &Vec<(usize, usize)>, from: usize) -> (res: String)
    requires
        cs@ == line@,
        words_of(cs@, r@),
        1 <= from <= r@.len(),
    ensures
        res@ == join_words(split_ws(cs@).subrange(from as int, r@.len() as int)),
{
    let ghost parts = split_ws(cs@);
    let mut res = String::new();
    let mut k = from;
    assert(parts.subrange(from as int, from as int) =~= Seq::<Seq<char>>::empty());
    while k < r.len()
        invariant
            cs@ == line@,
            words_of(cs@, r@),
            parts == split_ws(cs@),
            from <= k <= r@.len(),
            res@ == join_words(parts.subrange(from as int, k as int)),
        decreases r.len() - k,
    {
        let (a, b) = r[k];
        let w = line.substring_char(a, b);
        assert(w@ == parts[k as int]);
        let ghost sub = parts.subrange(from as int, k + 1);
        assert(sub.drop_last() =~= parts.subrange(from as int, k as int));
        assert(sub.last() == parts[k as int]);
        if k > from {
            proof {
                reveal_strlit(" ");
            }
            res.append(" ");
        }
        res.append(w);
        k = k + 1;
    }
    res
}

impl HeaderParser {
    /// A parser that has read no line.
    pub fn new() -> (r: HeaderParser)
        ensures
            r@ == initial_state(),
    {
        let r = HeaderParser {
            magic: false,
            done: false,
            format: None,
            elements: Vec::new(),
            has_current: false,
            cur_name: String::new(),
            cur_count: 0,
            cur_props: Vec::new(),
            comments: Vec::new(),
            obj_info: Vec::new(),
        };
        assert(r@ =~= initial_state());
        r
    }

    /// Whether the `end_header` line has been read.
    pub fn is_done(&self) -> (r: bool)
        ensures
            r == self@.done,
    {
        self.done
    }

    fn on_format(&mut self, line: &str, cs: &Vec<char>, r: &Vec<(usize, usize)>) -> (res: Result<
        (),
        DeserializeError,
    >)
        requires
            cs@ == line@,
            words_of(cs@, r@),
            r@.len() > 0,
        ensures
            match step_format(old(self)@, split_ws(cs@)) {
                Ok(s) => res is Ok && final(self)@ == s,
                Err(e) => res matches Err(x) && x@ == e,
            },
    {
        if r.len() < 3 {
            return Err(DeserializeError::InvalidFormatLine);
        }
        let (a, b) = r[1];
        match PlyFormat::from_name(cs, a, b) {
            Some(f) => {
                self.format = Some(f);
                Ok(())
            },
            None => Err(DeserializeError::UnknownFormat(line.substring_char(a, b).to_owned())),
        }
    }
    fn on_element(&mut self, line: &str, cs: &Vec<char>, r: &Vec<(usize, usize)>) -> (res: Result<
        (),
        DeserializeError,
    >)
        requires
            cs@ == line@,
            words_of(cs@, r@),
            r@.len() > 0,
        ensures
            match step_element(old(self)@, split_ws(cs@)) {
                Ok(s) => res is Ok && final(self)@ == s,
                Err(e) => res matches Err(x) && x@ == e,
            },
    {
        if r.len() < 3 {
            return Err(DeserializeError::InvalidElementLine);
        }
        let (a1, b1) = r[1];
        let (a2, b2) = r[2];
        let n = match parse_usize(cs, a2, b2) {
            Some(n) => n,
            None => {
                return Err(
                    DeserializeError::InvalidElementCount(line.substring_char(a2, b2).to_owned()),
                );
            },
        };
        let ghost old_elements = elems_view(self.elements@);
        let mut name = line.substring_char(a1, b1).to_owned();
        let mut props: Vec<PlyProperty> = Vec::new();
        std::mem::swap(&mut self.cur_name, &mut name);
        std::mem::swap(&mut self.cur_props, &mut props);
        let old_count = self.cur_count;
        self.cur_count = n;
        if self.has_current {
            let e = ElementDef { name, count: old_count, properties: props };
            self.elements.push(e);
            assert(elems_view(self.elements@) =~= old_elements.push(e@));
        }
        self.has_current = true;
        assert(props_view(self.cur_props@) =~= Seq::<SpecProperty>::empty());
        Ok(())
    }

    fn on_property(&mut self, line: &str, cs: &Vec<char>, r: &Vec<(usize, usize)>) -> (res: Result<
        (),
        DeserializeError,
    >)
        requires
            cs@ == line@,
            words_of(cs@, r@),
            r@.len() > 0,
        ensures
            match step_property(old(self)@, split_ws(cs@)) {
                Ok(s) => res is Ok && final(self)@ == s,
                Err(e) => res matches Err(x) && x@ == e,
            },
    {
        if !self.has_current {
            return Err(DeserializeError::PropertyWithoutElement);
        }
        if r.len() < 3 {
            return Err(DeserializeError::InvalidPropertyLine);
        }
        let ghost old_props = props_view(self.cur_props@);
        let (a1, b1) = r[1];
        let prop = if range_eq(cs, a1, b1, &KW_LIST) {
            if r.len() < 5 {
                return Err(DeserializeError::InvalidListPropertyLine);
            }
            let (a2, b2) = r[2];
            let (a3, b3) = r[3];
            let (a4, b4) = r[4];
            let count_type = match ScalarType::from_chars(cs, a2, b2) {
                Some(t) => t,
                None => {
                    return Err(
                        DeserializeError::UnknownScalarType(line.substring_char(a2, b2).to_owned()),
                    );
                },
            };
            let data_type = match ScalarType::from_chars(cs, a3, b3) {
                Some(t) => t,
                None => {
                    return Err(
                        DeserializeError::UnknownScalarType(line.substring_char(a3, b3).to_owned()),
                    );
                },
            };
            PlyProperty {
                name: line.substring_char(a4, b4).to_owned(),
                property_type: PropertyType::List { count_type, data_type },
            }
        } else {
            let (a2, b2) = r[2];
            let t = match ScalarType::from_chars(cs, a1, b1) {
                Some(t) => t,
                None => {
                    return Err(
                        DeserializeError::UnknownScalarType(line.substring_char(a1, b1).to_owned()),
                    );
                },
            };
            PlyProperty {
                name: line.substring_char(a2, b2).to_owned(),
                property_type: PropertyType::Scalar(t),
            }
        };
        self.cur_props.push(prop);
        assert(props_view(self.cur_props@) =~= old_props.push(prop@));
        Ok(())
    }

    /// Read one header line, as `BufRead::read_line` hands it over (with its
    /// newline, if it has one). Returns whether the line ended the header.
    pub fn feed_line(&mut self, line: &str) -> (res: Result<bool, DeserializeError>)
        requires
            !old(self)@.done,
        ensures
            match spec_step(old(self)@, line@) {
                Ok(s) => res matches Ok(d) && d == s.done && final(self)@ == s,
                Err(e) => res matches Err(x) && x@ == e,
            },
    {
        let cs = chars_of(line);
        let (ta, tb) = trim_bounds(&cs);
        if !self.magic {
            if range_eq(&cs, ta, tb, &KW_PLY) {
                self.magic = true;
                return Ok(false);
            } else {
                return Err(DeserializeError::MissingMagic);
            }
        }
        let n = cs.len();
        if range_eq(&cs, ta, tb, &KW_END_HEADER) && n > 0 && cs[n - 1] == '\n' {
            self.done = true;
            return Ok(true);
        }
        let r = word_ranges(&cs);
        let ghost parts = split_ws(cs@);
        if r.len() == 0 {
            return Ok(false);
        }
        let (a0, b0) = r[0];
        if range_eq(&cs, a0, b0, &KW_FORMAT) {
            match self.on_format(line, &cs, &r) {
                Ok(()) => Ok(false),
                Err(e) => Err(e),
            }
        } else if range_eq(&cs, a0, b0, &KW_COMMENT) {
            let ghost old_comments = strings_view(self.comments@);
            let c = join_range(line, &cs, &r, 1);
            assert(parts.skip(1) =~= parts.subrange(1, r@.len() as int));
            self.comments.push(c);
            assert(strings_view(self.comments@) =~= old_comments.push(c@));
            Ok(false)
        } else if range_eq(&cs, a0, b0, &KW_OBJ_INFO) {
            let ghost old_info = strings_view(self.obj_info@);
            let c = join_range(line, &cs, &r, 1);
            assert(parts.skip(1) =~= parts.subrange(1, r@.len() as int));
            self.obj_info.push(c);
            assert(strings_view(self.obj_info@) =~= old_info.push(c@));
            Ok(false)
        } else if range_eq(&cs, a0, b0, &KW_ELEMENT) {
            match self.on_element(line, &cs, &r) {
                Ok(()) => Ok(false),
                Err(e) => Err(e),
            }
        } else if range_eq(&cs, a0, b0, &KW_PROPERTY) {
            match self.on_property(line, &cs, &r) {
                Ok(()) => Ok(false),
                Err(e) => Err(e),
            }
        } else {
            Ok(false)
        }
    }

    /// The error to report when the input ends before the header does.
    pub fn eof_error(&self) -> (r: DeserializeError)
        ensures
            r@ == spec_eof_error(self@),
    {
        if self.magic {
            DeserializeError::UnexpectedEof
        } else {
            DeserializeError::MissingMagic
        }
    }

    /// The header that the lines read so far describe.
    pub fn finish(self) -> (res: Result<PlyHeader, DeserializeError>)
        ensures
            match spec_finish(self@) {
                Ok(h) => res matches Ok(x) && x@ == h,
                Err(e) => res matches Err(x) && x@ == e,
            },
    {
        let ghost st = self@;
        let HeaderParser {
            format,
            mut elements,
            has_current,
            cur_name,
            cur_count,
            cur_props,
            comments,
            obj_info,
            ..
        } = self;
        let ghost old_elements = elems_view(elements@);
        if has_current {
            let e = ElementDef { name: cur_name, count: cur_count, properties: cur_props };
            elements.push(e);
            assert(elems_view(elements@) =~= old_elements.push(e@));
        }
        match format {
            None => Err(DeserializeError::MissingFormat),
            Some(f) => {
                let h = PlyHeader { format: f, elem_defs: elements, comments, obj_info };
                assert(spec_finish(st) == Ok::<SpecHeader, PlyError>(h@));
                Ok(h)
            },
        }
    }
}

impl PlyHeader {
    /// Read a header from its lines, as `BufRead::read_line` yields them; the
    /// input ends where the lines end. Returns the header and the number of
    /// lines it took, the `end_header` line included.
    pub fn parse(lines: &[String]) -> (res: Result<(PlyHeader, usize), DeserializeError>)
        ensures
            match spec_parse_header(strings_view(lines@)) {
                Ok((h, n)) => res matches Ok((x, m)) && x@ == h && m == n,
                Err(e) => res matches Err(x) && x@ == e,
            },
    {
        let ghost ls = strings_view(lines@);
        let mut p = HeaderParser::new();
        let mut i: usize = 0;
        while i < lines.len()
            invariant
                ls == strings_view(lines@),
                i <= lines@.len(),
                !p@.done,
                spec_run(initial_state(), ls, 0) == spec_run(p@, ls, i as nat),
            decreases lines.len() - i,
        {
            assert(ls[i as int] == lines@[i as int]@);
            match p.feed_line(lines[i].as_str()) {
                Err(e) => {
                    return Err(e);
                },
                Ok(done) => {
                    i = i + 1;
                    if done {
                        return match p.finish() {
                            Ok(h) => Ok((h, i)),
                            Err(e) => Err(e),
                        };
                    }
                },
            }
        }
        Err(p.eof_error())
    }
}

} // verus!
