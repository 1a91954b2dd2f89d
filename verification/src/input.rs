//! The program input: a file by path, or bytes already read from the
//! standard input.

use vstd::prelude::*;

use crate::linker::LibraryKind;
use crate::parse::spec_last_char_idx;

verus! {

/// Where the program to debug comes from.
#[derive(Debug)]
pub enum InputFile {
    /// A file, identified by its path; the host reads it.
    Real(String),
    /// Bytes the host already read from the standard input.
    Stdin(Vec<u8>),
}

/// The mathematical value of a program input.
pub enum InputFileView {
    Real(Seq<char>),
    Stdin(Seq<u8>),
}

impl View for InputFile {
    type V = InputFileView;

    open spec fn view(&self) -> InputFileView {
        match self {
            InputFile::Real(p) => InputFileView::Real(p@),
            InputFile::Stdin(b) => InputFileView::Stdin(b@),
        }
    }
}

impl Default for InputFile {
    fn default() -> (r: Self)
        ensures
            r@ == InputFileView::Stdin(Seq::<u8>::empty()),
    {
        let r = InputFile::Stdin(Vec::new());
        proof {
            assert(r@ == InputFileView::Stdin(Seq::<u8>::empty()));
        }
        r
    }
}

/// How many `/` characters `s` ends with.
pub open spec fn trailing_separators(s: Seq<char>) -> int
    decreases s.len(),
{
    if s.len() == 0 {
        0
    } else if s.last() == '/' {
        1 + trailing_separators(s.drop_last())
    } else {
        0
    }
}

proof fn lemma_trailing_separators_bounds(s: Seq<char>)
    ensures
        0 <= trailing_separators(s) <= s.len(),
        forall|i: int|
            s.len() - trailing_separators(s) <= i < s.len() ==> (#[trigger] s[i]) == '/',
        trailing_separators(s) < s.len() ==> s[s.len() - trailing_separators(s) - 1] != '/',
    decreases s.len(),
{
    if s.len() > 0 && s.last() == '/' {
        lemma_trailing_separators_bounds(s.drop_last());
        assert forall|i: int|
            s.len() - trailing_separators(s) <= i < s.len() implies (#[trigger] s[i]) == '/' by {
            if i < s.len() - 1 {
                assert(s.drop_last()[i] == s[i]);
            }
        }
        if trailing_separators(s) < s.len() {
            assert(s.drop_last()[s.len() - trailing_separators(s) - 1] == s[s.len()
                - trailing_separators(s) - 1]);
        }
    }
}

proof fn lemma_trailing_separators_ge(s: Seq<char>, k: int)
    requires
        0 <= k <= s.len(),
        forall|i: int| s.len() - k <= i < s.len() ==> (#[trigger] s[i]) == '/',
    ensures
        trailing_separators(s) >= k,
    decreases k,
{
    if k > 0 {
        assert(s.last() == '/');
        assert forall|i: int|
            s.drop_last().len() - (k - 1) <= i < s.drop_last().len() implies (
        #[trigger] s.drop_last()[i]) == '/' by {
            assert(s.drop_last()[i] == s[i]);
        }
        lemma_trailing_separators_ge(s.drop_last(), k - 1);
        assert(trailing_separators(s) == 1 + trailing_separators(s.drop_last()));
    } else {
        lemma_trailing_separators_bounds(s);
    }
}

/// The file name a path names: its final component — what follows the
/// last separator, any trailing separators ignored. A path with no final
/// component, and one whose final component is the parent-directory
/// symbol, name no file and yield the placeholder.
pub open spec fn spec_file_name(p: Seq<char>) -> Seq<char> {
    let q = p.take(p.len() - trailing_separators(p));
    let base = q.skip(spec_last_char_idx(q, '/') + 1);
    if base.len() == 0 || base == ".."@ {
        "<noname>"@
    } else {
        base
    }
}

/// The magic prefix of a compiled package file.
pub open spec fn spec_has_package_magic(b: Seq<u8>) -> bool {
    b.len() >= 5 && b[0] == 77 && b[1] == 65 && b[2] == 83 && b[3] == 80 && b[4] == 0
}

impl InputFile {
    /// The input's file name: the path's final component, or a
    /// placeholder for the standard input and for paths that name no
    /// file.
    pub fn file_name(&self) -> (r: &str)
        ensures
            match self@ {
                InputFileView::Real(p) => r@ == spec_file_name(p),
                InputFileView::Stdin(_) => r@ == "<noname>"@,
            },
    {
        match self {
            InputFile::Real(path) => {
                let s: &str = path.as_str();
                let n: usize = s.unicode_len();
                let mut end: usize = n;
                while end > 0 && s.get_char(end - 1) == '/'
                    invariant
                        end <= n,
                        n == s@.len(),
                        forall|k: int| end <= k < n ==> (#[trigger] s@[k]) == '/',
                    decreases end,
                {
                    end = end - 1;
                }
                proof {
                    lemma_trailing_separators_bounds(s@);
                    lemma_trailing_separators_ge(s@, n - end);
                    if end > 0 {
                        assert(s@[end - 1] != '/');
                        if n - end < trailing_separators(s@) {
                            assert(s@[end - 1] == '/');
                        }
                    }
                    assert(end == s@.len() - trailing_separators(s@));
                }
                let q: &str = s.substring_char(0, end);
                proof {
                    assert(q@ =~= s@.take(end as int));
                }
                let base: &str = match crate::parse::split_last_char(q, '/') {
                    Some((_, base)) => base,
                    None => {
                        proof {
                            assert(q@.skip(crate::parse::spec_last_char_idx(q@, '/') + 1) =~= q@);
                        }
                        q
                    },
                };
                if base.unicode_len() == 0 || crate::parse::str_eq(base, "..") {
                    "<noname>"
                } else {
                    base
                }
            },
            InputFile::Stdin(_) => "<noname>",
        }
    }

    /// An input backed by the file at `path`.
    pub fn from_path(path: String) -> (r: InputFile)
        ensures
            r@ == InputFileView::Real(path@),
    {
        InputFile::Real(path)
    }

    /// The kind of library this input holds, as far as the value itself
    /// can tell: bytes from the standard input are a compiled package
    /// when they begin with the package magic and assembly source
    /// otherwise; a file defers to its contents, which only the host can
    /// read, so a path yields nothing here.
    pub fn library_kind(&self) -> (r: Option<LibraryKind>)
        ensures
            match self@ {
                InputFileView::Stdin(b) => r == Some(
                    if spec_has_package_magic(b) {
                        LibraryKind::Masp
                    } else {
                        LibraryKind::Masm
                    },
                ),
                InputFileView::Real(_) => r is None,
            },
    {
        match self {
            InputFile::Stdin(bytes) => {
                if bytes.len() >= 5 && bytes[0] == 77 && bytes[1] == 65 && bytes[2] == 83
                    && bytes[3] == 80 && bytes[4] == 0 {
                    Some(LibraryKind::Masp)
                } else {
                    Some(LibraryKind::Masm)
                }
            },
            InputFile::Real(_) => None,
        }
    }
}

/// Classifies command-line input values: the conventional dash asks for
/// the standard input, anything else is a path.
#[derive(Debug, Clone, Copy, PartialEq, Eq, Structural)]
pub struct InputFileParser;

impl InputFileParser {
    /// Whether a command-line value asks for the standard input.
    pub fn wants_stdin(&self, value: &str) -> (r: bool)
        ensures
            r == (value@ == "-"@),
    {
        crate::parse::str_eq(value, "-")
    }
}

} // verus!
