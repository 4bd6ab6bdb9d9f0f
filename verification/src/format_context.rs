//! State carried from one formatted line to the next.

use vstd::prelude::*;
use crate::color::{Color, ColoredText};
use crate::color_manager::{ColorManager, with_container, container_color, level_color};
use crate::text::{lowercase, is_ascii_text, ascii_lower};

verus! {

/// The length of `s` in UTF-8 bytes, as `str::len` reports it.
pub open spec fn byte_len(s: Seq<char>) -> nat {
    (vstd::utf8::encode_utf8(s).len() as usize) as nat
}

/// The largest byte length among `names`, 0 when there is none.
pub open spec fn max_byte_len(names: Seq<Seq<char>>) -> nat
    decreases names.len(),
{
    if names.len() == 0 {
        0
    } else {
        let rest = max_byte_len(names.drop_last());
        let last = byte_len(names.last());
        if rest < last {
            last
        } else {
            rest
        }
    }
}

/// A name that has been seen is no longer than the longest one.
proof fn lemma_max_byte_len_bounds(names: Seq<Seq<char>>, name: Seq<char>)
    requires
        names.contains(name),
    ensures
        byte_len(name) <= max_byte_len(names),
    decreases names.len(),
{
    if names.last() != name {
        let i = choose|i: int| 0 <= i < names.len() && names[i] == name;
        assert(names.drop_last()[i] == name);
        lemma_max_byte_len_bounds(names.drop_last(), name);
    }
}

/// The longest byte length after `name` has been seen.
proof fn lemma_max_byte_len_with(names: Seq<Seq<char>>, name: Seq<char>)
    ensures
        max_byte_len(with_container(names, name)) == if max_byte_len(names) < byte_len(name) {
            byte_len(name)
        } else {
            max_byte_len(names)
        },
{
    if names.contains(name) {
        lemma_max_byte_len_bounds(names, name);
    } else {
        assert(names.push(name).drop_last() =~= names);
    }
}

/// The colors of the containers and levels, and the width that container
/// names are padded to: the byte length of the longest name seen so far.
pub struct FormatContext {
    color_manager: ColorManager,
    min_indent: usize,
}

impl FormatContext {
    /// The containers seen so far, in order of first appearance.
    pub closed spec fn containers(&self) -> Seq<Seq<char>> {
        self.color_manager@
    }

    /// The width that container names are padded to.
    pub closed spec fn indent_width(&self) -> nat {
        self.min_indent as nat
    }

    /// The color manager is well formed and the width is the byte length of
    /// the longest container name seen.
    pub closed spec fn wf(&self) -> bool {
        &&& self.color_manager.wf()
        &&& self.min_indent == max_byte_len(self.color_manager@)
    }

    /// The width is the byte length of the longest container name seen, and
    /// each container is listed once.
    pub proof fn lemma_wf_indent(&self)
        requires
            self.wf(),
        ensures
            self.indent_width() == max_byte_len(self.containers()),
            self.containers().no_duplicates(),
    {
        self.color_manager.lemma_wf_no_duplicates();
    }

    /// A context that has seen no container.
    pub fn new() -> (res: Self)
        ensures
            res.wf(),
            res.containers() == Seq::<Seq<char>>::empty(),
            res.indent_width() == 0,
    {
        FormatContext { color_manager: ColorManager::new(), min_indent: 0 }
    }

    /// The container's name in its color; the width grows to the name's byte
    /// length when the name is longer than all before it.
    pub fn get_container_color(&mut self, container: &str) -> (res: ColoredText)
        requires
            old(self).wf(),
        ensures
            final(self).wf(),
            final(self).containers() == with_container(old(self).containers(), container@),
            final(self).indent_width() == if old(self).indent_width() < byte_len(container@) {
                byte_len(container@)
            } else {
                old(self).indent_width()
            },
            res.input@ == container@,
            res.color == container_color(final(self).containers(), container@),
    {
        let len = container.len();
        if self.min_indent < len {
            self.min_indent = len;
        }
        proof {
            lemma_max_byte_len_with(self.color_manager@, container@);
        }
        self.color_manager.get_container_color(container)
    }

    /// The color of a log level, whatever its case.
    pub fn get_level_color(&self, level: &str) -> (res: Color)
        ensures
            res == level_color(lowercase(level@)),
            is_ascii_text(level@) ==> res == level_color(ascii_lower(level@)),
    {
        self.color_manager.get_level_color(level)
    }

    /// The width that container names are padded to.
    pub fn indent(&self) -> (res: usize)
        ensures
            res == self.indent_width(),
    {
        self.min_indent
    }
}

} // verus!
