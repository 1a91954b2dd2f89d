//! Libraries requested for linking, and the `[KIND=]NAME` grammar that
//! requests them.

use vstd::prelude::*;

use crate::parse::{spec_first_char_idx, spec_last_char_idx};

verus! {

/// The kinds of library that can be linked against.
#[derive(Debug, Clone, Copy, PartialEq, Eq, Hash, Structural)]
pub enum LibraryKind {
    /// A compiled package.
    Masp,
    /// A source-form assembly library in the standard project layout.
    Masm,
}

impl Default for LibraryKind {
    fn default() -> (r: Self)
        ensures
            r == LibraryKind::Masp,
    {
        LibraryKind::Masp
    }
}

impl LibraryKind {
    /// The kind's lowercase name.
    pub fn as_str(&self) -> (r: &'static str)
        ensures
            *self == LibraryKind::Masp ==> r@ =~= "masp"@,
            *self == LibraryKind::Masm ==> r@ =~= "masm"@,
    {
        match self {
            LibraryKind::Masp => "masp",
            LibraryKind::Masm => "masm",
        }
    }

    /// The kind a name denotes, if any.
    pub fn parse(s: &str) -> (r: Option<LibraryKind>)
        ensures
            s@ == "masp"@ ==> r == Some(LibraryKind::Masp),
            s@ == "masm"@ ==> r == Some(LibraryKind::Masm),
            s@ != "masp"@ && s@ != "masm"@ ==> r is None,
    {
        proof {
            reveal_strlit("masp");
            reveal_strlit("masm");
            assert("masp"@[3] == 'p' && "masm"@[3] == 'm');
        }
        if crate::parse::str_eq(s, "masp") {
            Some(LibraryKind::Masp)
        } else if crate::parse::str_eq(s, "masm") {
            Some(LibraryKind::Masm)
        } else {
            None
        }
    }
}

/// A library the user asked to link against.
#[derive(Debug)]
pub struct LinkLibrary {
    /// The library's name: as given when requested by name, or the stem
    /// of the file when requested by path.
    pub name: String,
    /// The path to load the library from, when one was given.
    pub path: Option<String>,
    /// The kind of library to load.
    pub kind: LibraryKind,
}

/// The mathematical value of a link request.
pub struct LinkLibraryView {
    pub name: Seq<char>,
    pub path: Option<Seq<char>>,
    pub kind: LibraryKind,
}

impl View for LinkLibrary {
    type V = LinkLibraryView;

    open spec fn view(&self) -> LinkLibraryView {
        LinkLibraryView {
            name: self.name@,
            path: crate::stacktrace::opt_str_view(self.path),
            kind: self.kind,
        }
    }
}

impl Clone for LinkLibrary {
    fn clone(&self) -> (r: Self)
        ensures
            r@ == self@,
    {
        LinkLibrary {
            name: self.name.clone(),
            path: match &self.path {
                Some(p) => Some(p.clone()),
                None => None,
            },
            kind: self.kind,
        }
    }
}

impl LinkLibrary {
    /// The library's name.
    pub fn name(&self) -> (r: &str)
        ensures
            r@ == self@.name,
    {
        self.name.as_str()
    }

    /// The request for the standard library.
    pub fn stdlib() -> (r: LinkLibrary)
        ensures
            r@.name == "std"@,
            r@.path is None,
            r@.kind == LibraryKind::Masp,
    {
        LinkLibrary { name: String::from_str("std"), path: None, kind: LibraryKind::Masp }
    }

    /// The request for the base (protocol / transaction kernel) library.
    pub fn base() -> (r: LinkLibrary)
        ensures
            r@.name == "base"@,
            r@.path is None,
            r@.kind == LibraryKind::Masp,
    {
        LinkLibrary { name: String::from_str("base"), path: None, kind: LibraryKind::Masp }
    }
}

/// Why a link request failed to parse.
#[derive(Debug, Clone, Copy, PartialEq, Eq, Structural)]
pub enum LinkParseError {
    /// No name or path was given.
    MissingName,
    /// The kind, given explicitly or as a file extension, names no known
    /// library kind.
    UnknownKind,
}

impl LinkParseError {
    /// The description each failure carries.
    pub open spec fn spec_message(self) -> Seq<char> {
        match self {
            LinkParseError::MissingName => "invalid link library: must specify a name or path"@,
            LinkParseError::UnknownKind => "invalid link library: unknown library kind"@,
        }
    }

    /// A human-readable description of the failure.
    pub fn message(&self) -> (r: &'static str)
        ensures
            r@ == self.spec_message(),
    {
        match self {
            LinkParseError::MissingName => "invalid link library: must specify a name or path",
            LinkParseError::UnknownKind => "invalid link library: unknown library kind",
        }
    }
}

/// The extension of `name`: what follows its last `.`, provided that is
/// nonempty and the `.` is not the first character.
pub open spec fn spec_extension(name: Seq<char>) -> Option<Seq<char>> {
    let i = spec_last_char_idx(name, '.');
    if i > 0 && i < name.len() - 1 {
        Some(name.skip(i + 1))
    } else {
        None
    }
}

/// Parses the `[KIND=]NAME` form of a link request.
///
/// `KIND` is `masp` or `masm`; when omitted or empty it is inferred from
/// `NAME`'s file extension, and defaults to a compiled package. `NAME` is
/// an absolute path — kept as the load path, its file stem becoming the
/// name — or a bare name, its extension stripped. Whether an absolute
/// path actually exists is for the host to check when loading.
#[derive(Debug, Clone, Copy, PartialEq, Eq, Structural)]
pub struct LinkLibraryParser;

/// The library kind of a link request: the explicit kind if one was
/// given and nonempty, else the extension, else the default.
pub open spec fn spec_link_kind(
    explicit: Option<Seq<char>>,
    ext: Option<Seq<char>>,
) -> Option<LibraryKind> {
    let chosen = match explicit {
        Some(k) => if k.len() > 0 {
            Some(k)
        } else {
            ext
        },
        None => ext,
    };
    match chosen {
        None => Some(LibraryKind::Masp),
        Some(k) => if k == "masp"@ {
            Some(LibraryKind::Masp)
        } else if k == "masm"@ {
            Some(LibraryKind::Masm)
        } else {
            None
        },
    }
}

impl LinkLibraryParser {
    /// Parse one `[KIND=]NAME` link request.
    pub fn parse(&self, value: &str) -> (r: Result<LinkLibrary, LinkParseError>)
        ensures
            ({
                let eq = spec_first_char_idx(value@, '=');
                let name = if eq >= 0 {
                    value@.skip(eq + 1)
                } else {
                    value@
                };
                let explicit = if eq >= 0 {
                    Some(value@.take(eq))
                } else {
                    None
                };
                if name.len() == 0 {
                    r == Result::<LinkLibrary, LinkParseError>::Err(LinkParseError::MissingName)
                } else {
                    match spec_link_kind(explicit, spec_extension(name)) {
                        None => r == Result::<LinkLibrary, LinkParseError>::Err(
                            LinkParseError::UnknownKind,
                        ),
                        Some(kind) => r matches Ok(lib) && lib@.kind == kind && (if name[0] == '/' {
                            lib@.path == Some(name) && lib@.name == spec_stem_of_path(name)
                        } else {
                            lib@.path is None && lib@.name == (match spec_extension(name) {
                                Some(_) => name.take(spec_last_char_idx(name, '.')),
                                None => name,
                            })
                        }),
                    }
                }
            }),
    {
        let (explicit, name): (Option<&str>, &str) = match crate::parse::split_first_char(
            value,
            '=',
        ) {
            Some((k, n)) => (Some(k), n),
            None => (None, value),
        };
        let n: usize = name.unicode_len();
        if n == 0 {
            return Err(LinkParseError::MissingName);
        }
        let ext: Option<&str> = Self::extension_of(name);
        let chosen: Option<&str> = match explicit {
            Some(k) => if k.unicode_len() > 0 {
                Some(k)
            } else {
                ext
            },
            None => ext,
        };
        let kind: LibraryKind = match chosen {
            None => LibraryKind::Masp,
            Some(k) => match LibraryKind::parse(k) {
                Some(kind) => kind,
                None => {
                    return Err(LinkParseError::UnknownKind);
                },
            },
        };
        if name.get_char(0) == '/' {
            let stem: &str = Self::stem_of_path(name);
            Ok(
                LinkLibrary {
                    name: String::from_str(stem),
                    path: Some(String::from_str(name)),
                    kind,
                },
            )
        } else {
            match crate::parse::split_last_char(name, '.') {
                Some((before, _)) if ext.is_some() => Ok(
                    LinkLibrary { name: String::from_str(before), path: None, kind },
                ),
                _ => Ok(LinkLibrary { name: String::from_str(name), path: None, kind }),
            }
        }
    }

    /// The extension of a name, per `spec_extension`.
    fn extension_of(name: &str) -> (r: Option<&str>)
        ensures
            match (r, spec_extension(name@)) {
                (Some(e), Some(v)) => e@ == v,
                (None, None) => true,
                _ => false,
            },
    {
        match crate::parse::split_last_char(name, '.') {
            Some((before, after)) => {
                if before.unicode_len() > 0 && after.unicode_len() > 0 {
                    Some(after)
                } else {
                    None
                }
            },
            None => None,
        }
    }

    /// The file stem of a path, per `spec_stem_of_path`.
    fn stem_of_path(path: &str) -> (r: &str)
        ensures
            r@ == spec_stem_of_path(path@),
    {
        let base: &str = match crate::parse::split_last_char(path, '/') {
            Some((_, b)) => b,
            None => {
                proof {
                    assert(path@.skip(spec_last_char_idx(path@, '/') + 1) =~= path@);
                }
                path
            },
        };
        match crate::parse::split_last_char(base, '.') {
            Some((before, after)) => {
                if before.unicode_len() > 0 && after.unicode_len() > 0 {
                    before
                } else {
                    base
                }
            },
            None => base,
        }
    }
}

/// The file stem of a path: its final component, with its extension
/// stripped.
pub open spec fn spec_stem_of_path(p: Seq<char>) -> Seq<char> {
    let base = p.skip(spec_last_char_idx(p, '/') + 1);
    match spec_extension(base) {
        Some(_) => base.take(spec_last_char_idx(base, '.')),
        None => base,
    }
}

} // verus!
