//! Where the daemon may write its log file: a relative path that names a file
//! inside the runtime directory, reached without parent-directory steps or
//! symbolic links.
//!
//! Paths are read as the platform reads them: `/` separates components, and
//! on Windows so does `\`. On Unix a leading `/` makes the path absolute. On
//! Windows a drive (`C:`) or two leading separators begin a prefix, a
//! prefix followed by a separator makes the path absolute, and a leading
//! separator alone is the root of the current drive. Everywhere `.`
//! components are ignored and `..` steps out of a directory.
use vstd::prelude::*;
use vstd::string::*;
use crate::resolve::Platform;
use crate::text::{chars_of, owned, concat2, concat3, str_eq};

verus! {

/// A character that separates path components on the platform.
pub open spec fn is_separator(c: char, platform: Platform) -> bool {
    c == '/' || (platform is Windows && c == '\\')
}

/// The parts of `p` between separators, in order (empty parts included).
pub open spec fn path_segments(p: Seq<char>, platform: Platform) -> Seq<Seq<char>>
    decreases p.len(),
{
    if p.len() == 0 {
        seq![Seq::<char>::empty()]
    } else {
        let segs = path_segments(p.drop_last(), platform);
        if is_separator(p.last(), platform) {
            segs.push(Seq::<char>::empty())
        } else {
            segs.update(segs.len() - 1, segs.last().push(p.last()))
        }
    }
}

/// A segment that names a directory entry: not empty, not `.` and not `..`.
pub open spec fn is_normal_segment(s: Seq<char>) -> bool {
    s.len() > 0 && s != seq!['.'] && s != seq!['.', '.']
}

/// The normal segments among `segs`, in order.
pub open spec fn normal_segments(segs: Seq<Seq<char>>) -> Seq<Seq<char>>
    decreases segs.len(),
{
    if segs.len() == 0 {
        Seq::empty()
    } else {
        let rest = normal_segments(segs.drop_last());
        if is_normal_segment(segs.last()) {
            rest.push(segs.last())
        } else {
            rest
        }
    }
}

/// Why a log path is refused.
#[derive(Debug)]
pub enum LogPathError {
    /// The path is empty or absolute.
    EmptyOrAbsolute,
    /// The path steps out through a `..` component.
    OutsideComponent,
    /// The path names no file.
    NoFileComponent,
    /// A component of the path is a symbolic link (the link's path is given).
    SymbolicLinkComponent(String),
    /// The directory that would hold the file lies outside the runtime directory.
    ParentOutside,
    /// The file itself is a symbolic link.
    FinalSymbolicLink,
    /// Something other than a regular file exists at the path.
    NotRegularFile,
    /// The file resolves outside the runtime directory.
    FileOutside,
    /// The file system could not be inspected (the error text is given).
    Io(String),
}

pub enum LogPathErrorView {
    EmptyOrAbsolute,
    OutsideComponent,
    NoFileComponent,
    SymbolicLinkComponent(Seq<char>),
    ParentOutside,
    FinalSymbolicLink,
    NotRegularFile,
    FileOutside,
    Io(Seq<char>),
}

impl View for LogPathError {
    type V = LogPathErrorView;

    open spec fn view(&self) -> LogPathErrorView {
        match self {
            LogPathError::EmptyOrAbsolute => LogPathErrorView::EmptyOrAbsolute,
            LogPathError::OutsideComponent => LogPathErrorView::OutsideComponent,
            LogPathError::NoFileComponent => LogPathErrorView::NoFileComponent,
            LogPathError::SymbolicLinkComponent(p) => LogPathErrorView::SymbolicLinkComponent(p@),
            LogPathError::ParentOutside => LogPathErrorView::ParentOutside,
            LogPathError::FinalSymbolicLink => LogPathErrorView::FinalSymbolicLink,
            LogPathError::NotRegularFile => LogPathErrorView::NotRegularFile,
            LogPathError::FileOutside => LogPathErrorView::FileOutside,
            LogPathError::Io(m) => LogPathErrorView::Io(m@),
        }
    }
}

/// The text the daemon reports for a refused log path.
pub open spec fn log_path_error_text(e: LogPathErrorView) -> Seq<char> {
    match e {
        LogPathErrorView::EmptyOrAbsolute => "Log file must be a non-empty relative path inside the runtime directory"@,
        LogPathErrorView::OutsideComponent => "Log file path must not contain parent, root, or platform-prefix components"@,
        LogPathErrorView::NoFileComponent => "Log file path must name a file inside the runtime directory"@,
        LogPathErrorView::SymbolicLinkComponent(p) => "Log file path must not traverse a symbolic link: "@ + p,
        LogPathErrorView::ParentOutside => "Log file parent resolves outside the runtime directory"@,
        LogPathErrorView::FinalSymbolicLink => "Log file must not be a symbolic link"@,
        LogPathErrorView::NotRegularFile => "Configured log path must be a regular file"@,
        LogPathErrorView::FileOutside => "Log file resolves outside the runtime directory"@,
        LogPathErrorView::Io(m) => m,
    }
}

impl LogPathError {
    /// The text the daemon reports for this error.
    pub fn message(&self) -> (r: String)
        ensures
            r@ == log_path_error_text(self@),
    {
        match self {
            LogPathError::EmptyOrAbsolute => owned("Log file must be a non-empty relative path inside the runtime directory"),
            LogPathError::OutsideComponent => owned("Log file path must not contain parent, root, or platform-prefix components"),
            LogPathError::NoFileComponent => owned("Log file path must name a file inside the runtime directory"),
            LogPathError::SymbolicLinkComponent(p) => concat2("Log file path must not traverse a symbolic link: ", p.as_str()),
            LogPathError::ParentOutside => owned("Log file parent resolves outside the runtime directory"),
            LogPathError::FinalSymbolicLink => owned("Log file must not be a symbolic link"),
            LogPathError::NotRegularFile => owned("Configured log path must be a regular file"),
            LogPathError::FileOutside => owned("Log file resolves outside the runtime directory"),
            LogPathError::Io(m) => m.clone(),
        }
    }
}

/// An ASCII letter.
pub open spec fn is_ascii_letter(c: char) -> bool {
    ('a' <= c && c <= 'z') || ('A' <= c && c <= 'Z')
}

/// On Windows, `p` begins with a drive: a letter and `:`.
pub open spec fn has_drive(p: Seq<char>) -> bool {
    p.len() >= 2 && is_ascii_letter(p[0]) && p[1] == ':'
}

/// `p` is an absolute path on the platform: on Unix it begins with `/`; on
/// Windows it begins with a drive followed by a separator, or with two
/// separators (a network, device or verbatim prefix).
pub open spec fn is_absolute_path(p: Seq<char>, platform: Platform) -> bool {
    match platform {
        Platform::Unix => p.len() > 0 && p[0] == '/',
        Platform::Windows => (has_drive(p) && p.len() >= 3 && is_separator(p[2], platform))
            || (p.len() >= 2 && is_separator(p[0], platform) && is_separator(p[1], platform)),
    }
}

/// On Windows, a relative path that still begins with a root (a leading
/// separator) or a prefix (a drive).
pub open spec fn has_root_or_prefix(p: Seq<char>, platform: Platform) -> bool {
    platform is Windows && p.len() > 0 && (is_separator(p[0], platform) || has_drive(p))
}

/// What a log path names on the platform, read without touching the file
/// system: the normal components that lead from the runtime directory to the
/// file.
pub open spec fn lexical_log_path(p: Seq<char>, platform: Platform) -> Result<Seq<Seq<char>>, LogPathErrorView> {
    if p.len() == 0 || is_absolute_path(p, platform) {
        Err(LogPathErrorView::EmptyOrAbsolute)
    } else if has_root_or_prefix(p, platform) || path_segments(p, platform).contains(seq!['.', '.']) {
        Err(LogPathErrorView::OutsideComponent)
    } else if normal_segments(path_segments(p, platform)).len() == 0 {
        Err(LogPathErrorView::NoFileComponent)
    } else {
        Ok(normal_segments(path_segments(p, platform)))
    }
}

fn char_is_separator(c: char, platform: Platform) -> (r: bool)
    ensures
        r == is_separator(c, platform),
{
    c == '/' || (matches!(platform, Platform::Windows) && c == '\\')
}

fn char_is_ascii_letter(c: char) -> (r: bool)
    ensures
        r == is_ascii_letter(c),
{
    (c >= 'a' && c <= 'z') || (c >= 'A' && c <= 'Z')
}

/// Splits `p` at every separator of the platform.
pub fn split_segments(p: &str, platform: Platform) -> (r: Vec<String>)
    ensures
        r.deep_view() == path_segments(p@, platform),
{
    let chars = chars_of(p);
    let n = chars.len();
    let mut done: Vec<String> = Vec::new();
    let mut start: usize = 0;
    let mut i: usize = 0;
    assert(p@.take(0) =~= Seq::<char>::empty());
    assert(p@.subrange(0, 0) =~= Seq::<char>::empty());
    assert(done.deep_view().push(p@.subrange(0, 0)) =~= path_segments(p@.take(0), platform));
    while i < n
        invariant
            chars@ == p@,
            n == p@.len(),
            start <= i <= n,
            path_segments(p@.take(i as int), platform) == done.deep_view().push(p@.subrange(start as int, i as int)),
        decreases n - i,
    {
        assert(p@.take(i + 1).drop_last() =~= p@.take(i as int));
        assert(p@.take(i + 1).last() == p@[i as int]);
        if char_is_separator(chars[i], platform) {
            let ghost before = done.deep_view();
            let seg = p.substring_char(start, i);
            done.push(owned(seg));
            assert(done.deep_view() =~= before.push(p@.subrange(start as int, i as int)));
            start = i + 1;
            assert(p@.subrange(start as int, i + 1) =~= Seq::<char>::empty());
        } else {
            assert(p@.subrange(start as int, i + 1) =~= p@.subrange(start as int, i as int).push(p@[i as int]));
        }
        i = i + 1;
    }
    let ghost before = done.deep_view();
    let seg = p.substring_char(start, n);
    done.push(owned(seg));
    assert(done.deep_view() =~= before.push(p@.subrange(start as int, n as int)));
    assert(p@.take(n as int) =~= p@);
    done
}

/// Whether a segment names a directory entry.
pub fn segment_is_normal(s: &str) -> (r: bool)
    ensures
        r == is_normal_segment(s@),
{
    proof {
        reveal_strlit(".");
        reveal_strlit("..");
        assert("."@ =~= seq!['.']);
        assert(".."@ =~= seq!['.', '.']);
    }
    s.unicode_len() > 0 && !str_eq(s, ".") && !str_eq(s, "..")
}

/// Checks a log path as the platform reads it, without touching the file
/// system, and returns the normal components that lead from the runtime
/// directory to the file.
pub fn check_log_path_lexically(p: &str, platform: Platform) -> (r: Result<Vec<String>, LogPathError>)
    ensures
        match r {
            Ok(parts) => lexical_log_path(p@, platform) == Ok::<Seq<Seq<char>>, LogPathErrorView>(parts.deep_view()),
            Err(e) => lexical_log_path(p@, platform) == Err::<Seq<Seq<char>>, LogPathErrorView>(e@),
        },
{
    let chars = chars_of(p);
    let n = chars.len();
    if n == 0 {
        return Err(LogPathError::EmptyOrAbsolute);
    }
    let windows = matches!(platform, Platform::Windows);
    let drive = n >= 2 && char_is_ascii_letter(chars[0]) && chars[1] == ':';
    let absolute = if windows {
        (drive && n >= 3 && char_is_separator(chars[2], platform))
            || (n >= 2 && char_is_separator(chars[0], platform) && char_is_separator(chars[1], platform))
    } else {
        chars[0] == '/'
    };
    if absolute {
        return Err(LogPathError::EmptyOrAbsolute);
    }
    if windows && (char_is_separator(chars[0], platform) || drive) {
        return Err(LogPathError::OutsideComponent);
    }
    let segs = split_segments(p, platform);
    let ghost all = segs.deep_view();
    let mut parts: Vec<String> = Vec::new();
    let mut i: usize = 0;
    assert(all.take(0) =~= Seq::<Seq<char>>::empty());
    assert(parts.deep_view() =~= Seq::<Seq<char>>::empty());
    proof {
        reveal_strlit("..");
        assert(".."@ =~= seq!['.', '.']);
    }
    while i < segs.len()
        invariant
            all == segs.deep_view(),
            all == path_segments(p@, platform),
            p@.len() > 0 && !is_absolute_path(p@, platform) && !has_root_or_prefix(p@, platform),
            i <= segs.len(),
            normal_segments(all.take(i as int)) == parts.deep_view(),
            forall|k: int| 0 <= k < i ==> all[k] != seq!['.', '.'],
        decreases segs.len() - i,
    {
        assert(all.take(i + 1).drop_last() =~= all.take(i as int));
        assert(all.take(i + 1).last() == all[i as int]);
        if str_eq(segs[i].as_str(), "..") {
            proof {
                reveal_strlit("..");
                assert(".."@ =~= seq!['.', '.']);
            }
            assert(all[i as int] == seq!['.', '.']);
            assert(all.contains(seq!['.', '.']));
            return Err(LogPathError::OutsideComponent);
        }
        proof {
            reveal_strlit("..");
            assert(".."@ =~= seq!['.', '.']);
        }
        if segment_is_normal(segs[i].as_str()) {
            let ghost before = parts.deep_view();
            parts.push(segs[i].clone());
            assert(parts.deep_view() =~= before.push(all[i as int]));
        }
        i = i + 1;
    }
    assert(all.take(segs.len() as int) =~= all);
    assert(!all.contains(seq!['.', '.']));
    if parts.len() == 0 {
        return Err(LogPathError::NoFileComponent);
    }
    Ok(parts)
}

/// What inspecting one component of the path on disk showed.
#[derive(Debug)]
pub enum EntryProbe {
    /// Nothing exists there yet.
    Missing,
    /// An entry that is not a symbolic link exists there.
    Present,
    /// A symbolic link exists there.
    SymbolicLink,
    /// The inspection failed (the error text is given).
    Failed(String),
}

/// What resolving the directory that would hold the log file showed.
#[derive(Debug)]
pub enum ParentProbe {
    /// It resolves inside the runtime directory.
    Inside,
    /// It resolves outside the runtime directory.
    Outside,
    /// It could not be resolved (the error text is given).
    Failed(String),
}

/// What inspecting the log file's own path showed.
#[derive(Debug)]
pub enum TargetProbe {
    /// Nothing exists there yet.
    Missing,
    /// A symbolic link exists there.
    SymbolicLink,
    /// Something other than a regular file exists there.
    NotRegular,
    /// A regular file that resolves inside the runtime directory.
    RegularInside,
    /// A regular file that resolves outside the runtime directory.
    RegularOutside,
    /// The inspection failed (the error text is given).
    Failed(String),
}

/// A component probe that refuses the path.
pub open spec fn component_refuses(probe: EntryProbe) -> bool {
    probe is SymbolicLink || probe is Failed
}

/// Decides about a lexically valid log path from what the file system showed:
/// the first component that is a symbolic link (or could not be inspected)
/// refuses it; then the parent directory must resolve inside the runtime
/// directory; then an existing file must be a regular file inside it.
pub open spec fn decide_log_path_spec(components: Seq<(Seq<char>, EntryProbe)>, parent: ParentProbe, target: TargetProbe) -> Result<(), LogPathErrorView> {
    if exists|i: int| 0 <= i < components.len() && component_refuses(#[trigger] components[i].1) {
        let i = choose|i: int| 0 <= i < components.len() && component_refuses(#[trigger] components[i].1)
            && forall|j: int| 0 <= j < i ==> !component_refuses(#[trigger] components[j].1);
        match components[i].1 {
            EntryProbe::Failed(m) => Err(LogPathErrorView::Io(m@)),
            _ => Err(LogPathErrorView::SymbolicLinkComponent(components[i].0)),
        }
    } else {
        match parent {
            ParentProbe::Failed(m) => Err(LogPathErrorView::Io(m@)),
            ParentProbe::Outside => Err(LogPathErrorView::ParentOutside),
            ParentProbe::Inside => match target {
                TargetProbe::Missing => Ok(()),
                TargetProbe::SymbolicLink => Err(LogPathErrorView::FinalSymbolicLink),
                TargetProbe::NotRegular => Err(LogPathErrorView::NotRegularFile),
                TargetProbe::RegularInside => Ok(()),
                TargetProbe::RegularOutside => Err(LogPathErrorView::FileOutside),
                TargetProbe::Failed(m) => Err(LogPathErrorView::Io(m@)),
            },
        }
    }
}

/// Decides about a lexically valid log path from what the file system showed;
/// `components` pairs the path of each component, from the runtime directory
/// down to the file, with what inspecting it showed.
pub fn decide_log_path(components: &Vec<(String, EntryProbe)>, parent: &ParentProbe, target: &TargetProbe) -> (r: Result<(), LogPathError>)
    ensures
        match r {
            Ok(()) => decide_log_path_spec(components@.map_values(|c: (String, EntryProbe)| (c.0@, c.1)), *parent, *target) == Ok::<(), LogPathErrorView>(()),
            Err(e) => decide_log_path_spec(components@.map_values(|c: (String, EntryProbe)| (c.0@, c.1)), *parent, *target) == Err::<(), LogPathErrorView>(e@),
        },
{
    let ghost cs = components@.map_values(|c: (String, EntryProbe)| (c.0@, c.1));
    let mut i: usize = 0;
    while i < components.len()
        invariant
            cs == components@.map_values(|c: (String, EntryProbe)| (c.0@, c.1)),
            i <= components.len(),
            forall|j: int| 0 <= j < i ==> !component_refuses(#[trigger] cs[j].1),
        decreases components.len() - i,
    {
        let (path, probe) = &components[i];
        assert(cs[i as int] == (path@, *probe));
        match probe {
            EntryProbe::SymbolicLink => {
                assert(component_refuses(cs[i as int].1));
                let ghost k = choose|k: int| 0 <= k < cs.len() && component_refuses(#[trigger] cs[k].1)
                    && forall|j: int| 0 <= j < k ==> !component_refuses(#[trigger] cs[j].1);
                assert(k == i) by {
                    if k < i { } else if k > i { assert(!component_refuses(cs[i as int].1)); }
                }
                return Err(LogPathError::SymbolicLinkComponent(path.clone()));
            }
            EntryProbe::Failed(m) => {
                assert(component_refuses(cs[i as int].1));
                let ghost k = choose|k: int| 0 <= k < cs.len() && component_refuses(#[trigger] cs[k].1)
                    && forall|j: int| 0 <= j < k ==> !component_refuses(#[trigger] cs[j].1);
                assert(k == i) by {
                    if k < i { } else if k > i { assert(!component_refuses(cs[i as int].1)); }
                }
                return Err(LogPathError::Io(m.clone()));
            }
            _ => {}
        }
        i = i + 1;
    }
    match parent {
        ParentProbe::Failed(m) => Err(LogPathError::Io(m.clone())),
        ParentProbe::Outside => Err(LogPathError::ParentOutside),
        ParentProbe::Inside => match target {
            TargetProbe::Missing => Ok(()),
            TargetProbe::SymbolicLink => Err(LogPathError::FinalSymbolicLink),
            TargetProbe::NotRegular => Err(LogPathError::NotRegularFile),
            TargetProbe::RegularInside => Ok(()),
            TargetProbe::RegularOutside => Err(LogPathError::FileOutside),
            TargetProbe::Failed(m) => Err(LogPathError::Io(m.clone())),
        },
    }
}

} // verus!
