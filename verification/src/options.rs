//! Options for writing PLY files.
use vstd::prelude::*;

use crate::types::{strings_view, PlyFormat};

verus! {

/// Options for PLY file serialization: the encoding, and the comment and
/// `obj_info` lines of the header.
#[derive(Debug, Clone)]
pub struct SerializeOptions {
    format: PlyFormat,
    comments: Vec<String>,
    obj_info: Vec<String>,
}

/// Options as a mathematical value.
#[verifier::ext_equal]
pub struct SpecOptions {
    pub format: PlyFormat,
    pub comments: Seq<Seq<char>>,
    pub obj_info: Seq<Seq<char>>,
}

impl View for SerializeOptions {
    type V = SpecOptions;

    closed spec fn view(&self) -> SpecOptions {
        SpecOptions {
            format: self.format,
            comments: strings_view(self.comments@),
            obj_info: strings_view(self.obj_info@),
        }
    }
}

impl SerializeOptions {
    /// Options for the given format, with no comments and no `obj_info` lines.
    pub fn new(format: PlyFormat) -> (r: Self)
        ensures
            r@.format == format,
            r@.comments == Seq::<Seq<char>>::empty(),
            r@.obj_info == Seq::<Seq<char>>::empty(),
    {
        let r = Self { format, comments: Vec::new(), obj_info: Vec::new() };
        assert(r@.comments =~= Seq::<Seq<char>>::empty());
        assert(r@.obj_info =~= Seq::<Seq<char>>::empty());
        r
    }

    /// Default options for ASCII format.
    pub fn ascii() -> (r: Self)
        ensures
            r@.format == PlyFormat::Ascii,
            r@.comments == Seq::<Seq<char>>::empty(),
            r@.obj_info == Seq::<Seq<char>>::empty(),
    {
        Self::new(PlyFormat::Ascii)
    }

    /// Default options for binary (little-endian) format.
    pub fn binary_le() -> (r: Self)
        ensures
            r@.format == PlyFormat::BinaryLittleEndian,
            r@.comments == Seq::<Seq<char>>::empty(),
            r@.obj_info == Seq::<Seq<char>>::empty(),
    {
        Self::new(PlyFormat::BinaryLittleEndian)
    }

    /// Default options for binary (big-endian) format.
    pub fn binary_be() -> (r: Self)
        ensures
            r@.format == PlyFormat::BinaryBigEndian,
            r@.comments == Seq::<Seq<char>>::empty(),
            r@.obj_info == Seq::<Seq<char>>::empty(),
    {
        Self::new(PlyFormat::BinaryBigEndian)
    }

    /// Add comments to the PLY header, after those already there.
    pub fn with_comments(self, comments: Vec<String>) -> (r: Self)
        ensures
            r@.format == self@.format,
            r@.comments == self@.comments + strings_view(comments@),
            r@.obj_info == self@.obj_info,
    {
        let ghost old_view = self@;
        let mut s = self;
        let mut extra = comments;
        let ghost added = strings_view(extra@);
        s.comments.append(&mut extra);
        assert(strings_view(s.comments@) =~= old_view.comments + added);
        s
    }

    /// Add `obj_info` lines to the PLY header, after those already there.
    pub fn with_obj_info(self, obj_info: Vec<String>) -> (r: Self)
        ensures
            r@.format == self@.format,
            r@.comments == self@.comments,
            r@.obj_info == self@.obj_info + strings_view(obj_info@),
    {
        let ghost old_view = self@;
        let mut s = self;
        let mut extra = obj_info;
        let ghost added = strings_view(extra@);
        s.obj_info.append(&mut extra);
        assert(strings_view(s.obj_info@) =~= old_view.obj_info + added);
        s
    }

    /// The format the file is written in.
    pub fn format(&self) -> (r: PlyFormat)
        ensures
            r == self@.format,
    {
        self.format
    }

    /// The comment lines of the header.
    pub fn comments(&self) -> (r: &Vec<String>)
        ensures
            strings_view(r@) == self@.comments,
    {
        &self.comments
    }

    /// The `obj_info` lines of the header.
    pub fn obj_info(&self) -> (r: &Vec<String>)
        ensures
            strings_view(r@) == self@.obj_info,
    {
        &self.obj_info
    }
}

} // verus!
