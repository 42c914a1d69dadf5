//! Path text: joining a directory with a path, stripping the last component, and
//! telling absolute paths from relative ones.
//!
//! Paths are plain text. On Unix `/` divides their components. On Windows `/` and
//! `\` do, and a path may begin with a prefix:
//!
//! ```text
//! C:                      a drive
//! \\server\share          a share
//! \\.\device              a device
//! \\?\C:                  a drive, verbatim
//! \\?\UNC\server\share    a share, verbatim
//! \\?\name                anything else, verbatim
//! ```
//!
//! After a verbatim prefix only `\` divides components, and a `.` among them is
//! kept.
use vstd::prelude::*;

use crate::text::{chars_of, concat2, join, joined, same_text};

verus! {

/// The platform whose path conventions apply.
#[derive(Clone, Copy, PartialEq, Eq, Structural, Debug)]
pub enum Platform {
    Unix,
    Windows,
}

// ---------------------------------------------------------------------------
// Separators and components
// ---------------------------------------------------------------------------

/// Whether `c` divides path components.
pub open spec fn is_sep(platform: Platform, c: char) -> bool {
    c == '/' || (platform == Platform::Windows && c == '\\')
}

/// Whether `c` divides the components of a path that is verbatim or not.
pub open spec fn divides(platform: Platform, verbatim: bool, c: char) -> bool {
    if verbatim {
        c == '\\'
    } else {
        is_sep(platform, c)
    }
}

/// The separator that joining inserts.
pub open spec fn main_sep(platform: Platform) -> Seq<char> {
    match platform {
        Platform::Unix => seq!['/'],
        Platform::Windows => seq!['\\'],
    }
}

/// Where the component that starts at `i` ends: at the next separator, or at the
/// end of `s`.
pub open spec fn component_end(platform: Platform, verbatim: bool, s: Seq<char>, i: int) -> int
    decreases s.len() - i,
{
    if 0 <= i < s.len() && !divides(platform, verbatim, s[i]) {
        component_end(platform, verbatim, s, i + 1)
    } else {
        i
    }
}

/// Where the component that ends at `end` starts: behind the last separator, but
/// not before `low`.
pub open spec fn component_start(
    platform: Platform,
    verbatim: bool,
    s: Seq<char>,
    low: int,
    end: int,
) -> int
    decreases end - low,
{
    if end <= low {
        low
    } else if divides(platform, verbatim, s[end - 1]) {
        end
    } else {
        component_start(platform, verbatim, s, low, end - 1)
    }
}

/// Where a path ends once its component that starts at `start` is taken off, the
/// separator before it included.
pub open spec fn without_component(low: int, start: int) -> int {
    if start > low {
        start - 1
    } else {
        low
    }
}

/// A component starts within the bounds that it is looked for in.
pub proof fn lemma_component_start(
    platform: Platform,
    verbatim: bool,
    s: Seq<char>,
    low: int,
    end: int,
)
    requires
        low <= end,
    ensures
        low <= component_start(platform, verbatim, s, low, end) <= end,
    decreases end - low,
{
    if end > low && !divides(platform, verbatim, s[end - 1]) {
        lemma_component_start(platform, verbatim, s, low, end - 1);
    }
}

proof fn lemma_component_end(platform: Platform, verbatim: bool, s: Seq<char>, i: int)
    requires
        0 <= i <= s.len(),
    ensures
        i <= component_end(platform, verbatim, s, i) <= s.len(),
        forall|k: int|
            i <= k < component_end(platform, verbatim, s, i) ==> !divides(
                platform,
                verbatim,
                #[trigger] s[k],
            ),
        component_end(platform, verbatim, s, i) < s.len() ==> divides(
            platform,
            verbatim,
            s[component_end(platform, verbatim, s, i)],
        ),
    decreases s.len() - i,
{
    if i < s.len() && !divides(platform, verbatim, s[i]) {
        lemma_component_end(platform, verbatim, s, i + 1);
    }
}

/// The components of `s` between `low` and `end`, empty ones left out.
pub open spec fn pieces(
    platform: Platform,
    verbatim: bool,
    s: Seq<char>,
    low: int,
    end: int,
) -> Seq<Seq<char>>
    decreases end - low,
{
    if end <= low {
        Seq::empty()
    } else {
        let start = component_start(platform, verbatim, s, low, end);
        proof {
            lemma_component_start(platform, verbatim, s, low, end);
        }
        let before = pieces(platform, verbatim, s, low, without_component(low, start));
        if start == end {
            before
        } else {
            before.push(s.subrange(start, end))
        }
    }
}

fn sep(platform: Platform, c: char) -> (r: bool)
    ensures
        r == is_sep(platform, c),
{
    c == '/' || (platform == Platform::Windows && c == '\\')
}

fn divider(platform: Platform, verbatim: bool, c: char) -> (r: bool)
    ensures
        r == divides(platform, verbatim, c),
{
    if verbatim {
        c == '\\'
    } else {
        sep(platform, c)
    }
}

fn main_sep_text(platform: Platform) -> (r: &'static str)
    ensures
        r@ == main_sep(platform),
{
    proof {
        reveal_strlit("/");
        reveal_strlit("\\");
        assert("/"@ =~= seq!['/']);
        assert("\\"@ =~= seq!['\\']);
    }
    match platform {
        Platform::Unix => "/",
        Platform::Windows => "\\",
    }
}

fn find_end(platform: Platform, verbatim: bool, s: &Vec<char>, start: usize) -> (r: usize)
    requires
        start <= s@.len(),
    ensures
        r == component_end(platform, verbatim, s@, start as int),
        start <= r <= s@.len(),
{
    let mut i: usize = start;
    while i < s.len() && !divider(platform, verbatim, s[i])
        invariant
            start <= i <= s@.len(),
            component_end(platform, verbatim, s@, i as int) == component_end(
                platform,
                verbatim,
                s@,
                start as int,
            ),
        decreases s@.len() - i,
    {
        i += 1;
    }
    i
}

fn find_start(platform: Platform, verbatim: bool, s: &Vec<char>, low: usize, end: usize) -> (r:
    usize)
    requires
        low <= end <= s@.len(),
    ensures
        r == component_start(platform, verbatim, s@, low as int, end as int),
        low <= r <= end,
{
    let mut i: usize = end;
    while i > low && !divider(platform, verbatim, s[i - 1])
        invariant
            low <= i <= end <= s@.len(),
            component_start(platform, verbatim, s@, low as int, i as int) == component_start(
                platform,
                verbatim,
                s@,
                low as int,
                end as int,
            ),
        decreases i,
    {
        i -= 1;
    }
    i
}

fn cut_component(low: usize, start: usize) -> (r: usize)
    requires
        low <= start,
    ensures
        r == without_component(low as int, start as int),
        low <= r <= start,
{
    if start > low {
        start - 1
    } else {
        low
    }
}

fn split(
    platform: Platform,
    verbatim: bool,
    text: &str,
    s: &Vec<char>,
    low: usize,
    end: usize,
) -> (r: Vec<String>)
    requires
        s@ == text@,
        end <= s@.len(),
    ensures
        r.deep_view() == pieces(platform, verbatim, s@, low as int, end as int),
    decreases end,
{
    if end <= low {
        let none: Vec<String> = Vec::new();
        proof {
            assert(none.deep_view() =~= Seq::empty());
        }
        return none;
    }
    let start = find_start(platform, verbatim, s, low, end);
    let mut list = split(platform, verbatim, text, s, low, cut_component(low, start));
    let ghost before = list.deep_view();
    if start < end {
        list.push(text.substring_char(start, end).to_owned());
        proof {
            assert(list.deep_view() =~= before.push(s@.subrange(start as int, end as int)));
        }
    }
    list
}

// ---------------------------------------------------------------------------
// Prefixes and roots
// ---------------------------------------------------------------------------

/// Whether a drive (a letter and a colon) stands at position `i`.
pub open spec fn drive_at(s: Seq<char>, i: int) -> bool {
    &&& 0 <= i
    &&& i + 2 <= s.len()
    &&& ('a' <= s[i] <= 'z' || 'A' <= s[i] <= 'Z')
    &&& s[i + 1] == ':'
}

/// Whether the path begins with a plain drive.
pub open spec fn has_drive(platform: Platform, s: Seq<char>) -> bool {
    platform == Platform::Windows && drive_at(s, 0)
}

/// Whether the path begins with a verbatim prefix. It must be written with `\`.
pub open spec fn is_verbatim(platform: Platform, s: Seq<char>) -> bool {
    &&& platform == Platform::Windows
    &&& s.len() >= 4
    &&& s[0] == '\\' && s[1] == '\\' && s[2] == '?' && s[3] == '\\'
}

/// Length of a verbatim prefix.
pub open spec fn verbatim_prefix_len(platform: Platform, s: Seq<char>) -> int {
    if s.len() >= 8 && s[4] == 'U' && s[5] == 'N' && s[6] == 'C' && is_sep(platform, s[7]) {
        let server = component_end(platform, true, s, 8);
        let share = component_end(platform, true, s, server + 1);
        if server < s.len() && share > server + 1 {
            share
        } else {
            server
        }
    } else if drive_at(s, 4) && (s.len() == 6 || is_sep(platform, s[6])) {
        6
    } else {
        component_end(platform, true, s, 4)
    }
}

/// Length of a prefix that begins with two separators and is not verbatim: a
/// device or a share. A share needs both of its names.
pub open spec fn network_prefix_len(platform: Platform, s: Seq<char>) -> int {
    if s.len() >= 4 && s[2] == '.' && is_sep(platform, s[3]) {
        component_end(platform, false, s, 4)
    } else {
        let server = component_end(platform, false, s, 2);
        let share = component_end(platform, false, s, server + 1);
        if 2 < server < s.len() && share > server + 1 {
            share
        } else {
            0
        }
    }
}

/// Length of the prefix of `s`, zero where there is none.
pub open spec fn prefix_len(platform: Platform, s: Seq<char>) -> int {
    if platform == Platform::Unix {
        0
    } else if is_verbatim(platform, s) {
        verbatim_prefix_len(platform, s)
    } else if s.len() >= 2 && is_sep(platform, s[0]) && is_sep(platform, s[1]) {
        network_prefix_len(platform, s)
    } else if drive_at(s, 0) {
        2
    } else {
        0
    }
}

/// Whether a separator follows the prefix.
pub open spec fn is_rooted(platform: Platform, s: Seq<char>) -> bool {
    prefix_len(platform, s) < s.len() && is_sep(platform, s[prefix_len(platform, s)])
}

/// Length of the prefix of `s` and the root behind it.
pub open spec fn root_len(platform: Platform, s: Seq<char>) -> int {
    if is_rooted(platform, s) {
        prefix_len(platform, s) + 1
    } else {
        prefix_len(platform, s)
    }
}

/// Whether the path begins at a root: it is written, or its prefix implies one,
/// as every prefix but a plain drive does.
pub open spec fn has_root(platform: Platform, s: Seq<char>) -> bool {
    is_rooted(platform, s) || (prefix_len(platform, s) > 0 && !has_drive(platform, s))
}

/// Whether the meaning of the path does not depend on the working directory. On
/// Windows that takes a prefix and a root.
pub open spec fn is_absolute(platform: Platform, s: Seq<char>) -> bool {
    has_root(platform, s) && (platform == Platform::Windows ==> prefix_len(platform, s) > 0)
}

proof fn lemma_prefix_len(platform: Platform, s: Seq<char>)
    ensures
        0 <= prefix_len(platform, s) <= s.len(),
        is_verbatim(platform, s) ==> prefix_len(platform, s) >= 4,
        prefix_len(platform, s) > 0 && !has_drive(platform, s) ==> prefix_len(platform, s) >= 4,
{
    if platform == Platform::Windows && s.len() >= 2 {
        if is_verbatim(platform, s) {
            lemma_component_end(platform, true, s, 4);
            if s.len() >= 8 {
                lemma_component_end(platform, true, s, 8);
                let server = component_end(platform, true, s, 8);
                if server < s.len() {
                    lemma_component_end(platform, true, s, server + 1);
                }
            }
        } else {
            lemma_component_end(platform, false, s, 2);
            let server = component_end(platform, false, s, 2);
            if server < s.len() {
                lemma_component_end(platform, false, s, server + 1);
            }
            if s.len() >= 4 {
                lemma_component_end(platform, false, s, 4);
            }
        }
    }
}

fn drive_found(s: &Vec<char>, i: usize) -> (r: bool)
    requires
        i <= 4,
    ensures
        r == drive_at(s@, i as int),
{
    s.len() >= 2 && i <= s.len() - 2 && (('a' <= s[i] && s[i] <= 'z') || ('A' <= s[i] && s[i]
        <= 'Z')) && s[i + 1] == ':'
}

fn verbatim_found(platform: Platform, s: &Vec<char>) -> (r: bool)
    ensures
        r == is_verbatim(platform, s@),
{
    platform == Platform::Windows && s.len() >= 4 && s[0] == '\\' && s[1] == '\\' && s[2] == '?'
        && s[3] == '\\'
}

fn prefix_found(platform: Platform, s: &Vec<char>) -> (r: usize)
    ensures
        r == prefix_len(platform, s@),
        r <= s@.len(),
{
    proof {
        lemma_prefix_len(platform, s@);
    }
    if platform == Platform::Unix {
        return 0;
    }
    if verbatim_found(platform, s) {
        if s.len() >= 8 && s[4] == 'U' && s[5] == 'N' && s[6] == 'C' && sep(platform, s[7]) {
            let server = find_end(platform, true, s, 8);
            if server < s.len() {
                let share = find_end(platform, true, s, server + 1);
                if share > server + 1 {
                    return share;
                }
            }
            return server;
        }
        if drive_found(s, 4) && (s.len() == 6 || sep(platform, s[6])) {
            return 6;
        }
        return find_end(platform, true, s, 4);
    }
    if s.len() >= 2 && sep(platform, s[0]) && sep(platform, s[1]) {
        if s.len() >= 4 && s[2] == '.' && sep(platform, s[3]) {
            return find_end(platform, false, s, 4);
        }
        let server = find_end(platform, false, s, 2);
        if server > 2 && server < s.len() {
            let share = find_end(platform, false, s, server + 1);
            if share > server + 1 {
                return share;
            }
        }
        return 0;
    }
    if drive_found(s, 0) {
        2
    } else {
        0
    }
}

fn rooted_found(platform: Platform, s: &Vec<char>) -> (r: bool)
    ensures
        r == is_rooted(platform, s@),
{
    let prefix = prefix_found(platform, s);
    prefix < s.len() && sep(platform, s[prefix])
}

/// Whether the meaning of the path does not depend on the working directory.
pub fn is_absolute_path(platform: Platform, path: &str) -> (r: bool)
    ensures
        r == is_absolute(platform, path@),
{
    let s = chars_of(path);
    match platform {
        Platform::Unix => rooted_found(platform, &s),
        Platform::Windows => prefix_found(platform, &s) > 0 && (rooted_found(platform, &s)
            || !drive_found(&s, 0)),
    }
}

// ---------------------------------------------------------------------------
// Joining
// ---------------------------------------------------------------------------

/// Whether joining puts a separator behind `dir`: unless it is empty, ends in one
/// already, or is a bare drive.
pub open spec fn needs_sep(platform: Platform, dir: Seq<char>) -> bool {
    &&& dir.len() > 0
    &&& !is_sep(platform, dir.last())
    &&& !(has_drive(platform, dir) && dir.len() == 2)
}

/// Where following `part` leads from `stack`: `.` nowhere, `..` out of the last
/// name, anything else into it.
pub open spec fn following(stack: Seq<Seq<char>>, part: Seq<char>) -> Seq<Seq<char>> {
    if part == "."@ {
        stack
    } else if part == ".."@ {
        if stack.len() > 0 && stack.last() != "."@ && stack.last() != ".."@ {
            stack.drop_last()
        } else {
            stack
        }
    } else {
        stack.push(part)
    }
}

/// Where following all of `parts` leads from `stack`.
pub open spec fn following_all(stack: Seq<Seq<char>>, parts: Seq<Seq<char>>) -> Seq<Seq<char>>
    decreases parts.len(),
{
    if parts.len() == 0 {
        stack
    } else {
        following(following_all(stack, parts.drop_last()), parts.last())
    }
}

/// The components of the verbatim directory `dir` joined with `rel`.
pub open spec fn verbatim_names(platform: Platform, dir: Seq<char>, rel: Seq<char>) -> Seq<
    Seq<char>,
> {
    following_all(
        if is_rooted(platform, rel) {
            Seq::empty()
        } else {
            pieces(platform, true, dir, root_len(platform, dir), dir.len() as int)
        },
        pieces(platform, false, rel, 0, rel.len() as int),
    )
}

/// `rel` resolved against the verbatim directory `dir`. The references in `rel`
/// are followed, since nothing resolves them in a verbatim path, and `\` divides
/// the components throughout.
pub open spec fn verbatim_joined(platform: Platform, dir: Seq<char>, rel: Seq<char>) -> Seq<char> {
    let names = verbatim_names(platform, dir, rel);
    let root = if is_rooted(platform, dir) || is_rooted(platform, rel) || names.len() > 0 {
        main_sep(platform)
    } else {
        Seq::empty()
    };
    dir.take(prefix_len(platform, dir)) + root + joined(names, main_sep(platform))
}

/// `rel` resolved against the directory `dir`. A `rel` with a prefix stands alone,
/// and so does a rooted one, behind the prefix of `dir`. Otherwise it follows
/// `dir`.
pub open spec fn joined_path(platform: Platform, dir: Seq<char>, rel: Seq<char>) -> Seq<char> {
    if prefix_len(platform, rel) > 0 {
        rel
    } else if is_verbatim(platform, dir) && rel.len() > 0 {
        verbatim_joined(platform, dir, rel)
    } else if is_rooted(platform, rel) {
        dir.take(prefix_len(platform, dir)) + rel
    } else if needs_sep(platform, dir) {
        dir + main_sep(platform) + rel
    } else {
        dir + rel
    }
}

fn follow(stack: &mut Vec<String>, part: &str)
    ensures
        final(stack).deep_view() == following(old(stack).deep_view(), part@),
{
    let ghost before = stack.deep_view();
    if same_text(part, ".") {
        return ;
    }
    if same_text(part, "..") {
        let n: usize = stack.len();
        if n > 0 {
            let last = stack[n - 1].as_str();
            let named = !same_text(last, ".") && !same_text(last, "..");
            proof {
                assert(before.last() == last@);
            }
            if named {
                let _ = stack.pop();
                proof {
                    assert(stack.deep_view() =~= before.drop_last());
                }
            }
        }
        return ;
    }
    stack.push(part.to_owned());
    proof {
        assert(stack.deep_view() =~= before.push(part@));
    }
}

fn join_verbatim(platform: Platform, dir: &str, rel: &str) -> (r: String)
    ensures
        r@ == verbatim_joined(platform, dir@, rel@),
{
    let d = chars_of(dir);
    let t = chars_of(rel);
    let prefix = prefix_found(platform, &d);
    let dir_rooted = prefix < d.len() && sep(platform, d[prefix]);
    let rel_rooted = rooted_found(platform, &t);
    let mut names: Vec<String> = if rel_rooted {
        Vec::new()
    } else {
        let low: usize = if dir_rooted {
            prefix + 1
        } else {
            prefix
        };
        split(platform, true, dir, &d, low, d.len())
    };
    let ghost start = names.deep_view();
    proof {
        if rel_rooted {
            assert(start =~= Seq::empty());
        }
    }
    let parts = split(platform, false, rel, &t, 0, t.len());
    let ghost all = parts.deep_view();
    let mut i: usize = 0;
    proof {
        assert(all.take(0) =~= Seq::empty());
    }
    while i < parts.len()
        invariant
            i <= parts.len(),
            all == parts.deep_view(),
            names.deep_view() == following_all(start, all.take(i as int)),
        decreases parts.len() - i,
    {
        proof {
            assert(all.take(i + 1).drop_last() =~= all.take(i as int));
            assert(all.take(i + 1).last() == parts[i as int]@);
        }
        follow(&mut names, parts[i].as_str());
        i += 1;
    }
    proof {
        assert(all.take(i as int) =~= all);
        assert(names.deep_view() == verbatim_names(platform, dir@, rel@));
        assert(dir@.subrange(0, prefix as int) =~= dir@.take(prefix as int));
    }
    let mut out = dir.substring_char(0, prefix).to_owned();
    if dir_rooted || rel_rooted || names.len() > 0 {
        out.append(main_sep_text(platform));
    }
    out.append(join(&names, main_sep_text(platform)).as_str());
    proof {
        assert(out@ =~= verbatim_joined(platform, dir@, rel@));
    }
    out
}

/// Joins `rel` to the directory `dir`.
pub fn join_path(platform: Platform, dir: &str, rel: &str) -> (r: String)
    ensures
        r@ == joined_path(platform, dir@, rel@),
{
    let t = chars_of(rel);
    if prefix_found(platform, &t) > 0 {
        return rel.to_owned();
    }
    let d = chars_of(dir);
    if verbatim_found(platform, &d) && t.len() > 0 {
        return join_verbatim(platform, dir, rel);
    }
    if rooted_found(platform, &t) {
        let prefix = prefix_found(platform, &d);
        proof {
            assert(dir@.subrange(0, prefix as int) =~= dir@.take(prefix as int));
        }
        return concat2(dir.substring_char(0, prefix), rel);
    }
    let mut out = dir.to_owned();
    let bare_drive = platform == Platform::Windows && drive_found(&d, 0) && d.len() == 2;
    if d.len() > 0 && !sep(platform, d[d.len() - 1]) && !bare_drive {
        out.append(main_sep_text(platform));
    }
    out.append(rel);
    out
}

// ---------------------------------------------------------------------------
// Parents
// ---------------------------------------------------------------------------

/// Whether a relative path begins with a `.` component.
pub open spec fn begins_here(platform: Platform, s: Seq<char>) -> bool {
    let p = prefix_len(platform, s);
    &&& !has_root(platform, s)
    &&& p < s.len() && s[p] == '.'
    &&& p + 1 == s.len() || is_sep(platform, s[p + 1])
}

/// Length of what stands before the components that can be taken off: prefix,
/// root, and a `.` at the beginning.
pub open spec fn head_len(platform: Platform, s: Seq<char>) -> int {
    if begins_here(platform, s) {
        root_len(platform, s) + 1
    } else {
        root_len(platform, s)
    }
}

/// Where `s` ends if it is cut at `end` and then rid of trailing separators and,
/// unless it is verbatim, trailing `.` components, but not of anything before
/// `low`.
pub open spec fn tidy_to(
    platform: Platform,
    verbatim: bool,
    s: Seq<char>,
    low: int,
    end: int,
) -> int
    decreases end - low,
{
    if end <= low {
        end
    } else {
        let start = component_start(platform, verbatim, s, low, end);
        proof {
            lemma_component_start(platform, verbatim, s, low, end);
        }
        if start == end || (!verbatim && start + 1 == end && s[start] == '.') {
            tidy_to(platform, verbatim, s, low, without_component(low, start))
        } else {
            end
        }
    }
}

/// `s` without trailing separators and trailing `.` components. Prefix and root
/// stay, and so does a `.` at the beginning.
pub open spec fn tidy_end(platform: Platform, s: Seq<char>) -> Seq<char> {
    s.take(
        tidy_to(
            platform,
            is_verbatim(platform, s),
            s,
            head_len(platform, s),
            s.len() as int,
        ),
    )
}

/// The path without its last component. There is none for the empty path, for a
/// root, and for a prefix.
pub open spec fn parent_of(platform: Platform, s: Seq<char>) -> Option<Seq<char>> {
    let verbatim = is_verbatim(platform, s);
    let low = head_len(platform, s);
    let end = tidy_to(platform, verbatim, s, low, s.len() as int);
    if end > low {
        let start = component_start(platform, verbatim, s, low, end);
        Some(s.take(tidy_to(platform, verbatim, s, low, without_component(low, start))))
    } else if root_len(platform, s) == 0 && begins_here(platform, s) {
        Some(Seq::empty())
    } else {
        None
    }
}

proof fn lemma_tidy_to(platform: Platform, verbatim: bool, s: Seq<char>, low: int, end: int)
    requires
        low <= end,
    ensures
        low <= tidy_to(platform, verbatim, s, low, end) <= end,
    decreases end - low,
{
    if end > low {
        let start = component_start(platform, verbatim, s, low, end);
        lemma_component_start(platform, verbatim, s, low, end);
        lemma_tidy_to(platform, verbatim, s, low, without_component(low, start));
    }
}

proof fn lemma_head_len(platform: Platform, s: Seq<char>)
    ensures
        0 <= prefix_len(platform, s) <= root_len(platform, s) <= head_len(platform, s) <= s.len(),
{
    lemma_prefix_len(platform, s);
}

fn tidied(platform: Platform, verbatim: bool, s: &Vec<char>, low: usize, len: usize) -> (r: usize)
    requires
        low <= len <= s@.len(),
    ensures
        r == tidy_to(platform, verbatim, s@, low as int, len as int),
        low <= r <= len,
{
    let mut end: usize = len;
    while end > low
        invariant
            low <= end <= len <= s@.len(),
            tidy_to(platform, verbatim, s@, low as int, end as int) == tidy_to(
                platform,
                verbatim,
                s@,
                low as int,
                len as int,
            ),
        decreases end,
    {
        let start = find_start(platform, verbatim, s, low, end);
        if start == end || (!verbatim && start + 1 == end && s[start] == '.') {
            end = cut_component(low, start);
        } else {
            return end;
        }
    }
    end
}

/// Strips the last component of `path`.
pub fn parent_path(platform: Platform, path: &str) -> (r: Option<String>)
    ensures
        r.deep_view() == parent_of(platform, path@),
{
    let s = chars_of(path);
    proof {
        lemma_head_len(platform, s@);
        lemma_prefix_len(platform, s@);
    }
    let verbatim = verbatim_found(platform, &s);
    let prefix = prefix_found(platform, &s);
    let rooted = rooted_found(platform, &s);
    let implied = prefix > 0 && !(platform == Platform::Windows && drive_found(&s, 0));
    let here = !rooted && !implied && prefix < s.len() && s[prefix] == '.' && (s.len() - prefix == 1
        || sep(platform, s[prefix + 1]));
    let low: usize = if rooted || here {
        prefix + 1
    } else {
        prefix
    };
    let end = tidied(platform, verbatim, &s, low, s.len());
    if end > low {
        let start = find_start(platform, verbatim, &s, low, end);
        let cut = tidied(platform, verbatim, &s, low, cut_component(low, start));
        proof {
            assert(path@.subrange(0, cut as int) =~= path@.take(cut as int));
        }
        return Some(path.substring_char(0, cut).to_owned());
    }
    if prefix == 0 && here {
        Some(String::new())
    } else {
        None
    }
}

// ---------------------------------------------------------------------------
// Making paths absolute
// ---------------------------------------------------------------------------

/// Whether the path names a drive but no root on it, so that it starts at the
/// drive's own current directory.
pub open spec fn is_drive_relative(platform: Platform, s: Seq<char>) -> bool {
    has_drive(platform, s) && !is_rooted(platform, s)
}

/// The number of a drive letter, the same for upper and lower case.
pub open spec fn letter_number(c: char) -> int {
    if 'a' <= c {
        c as int - 'a' as int
    } else {
        c as int - 'A' as int
    }
}

/// Whether `dir` is an absolute directory on the drive with this letter.
pub open spec fn on_drive(platform: Platform, dir: Seq<char>, letter: char) -> bool {
    &&& has_drive(platform, dir)
    &&& is_rooted(platform, dir)
    &&& letter_number(dir[0]) == letter_number(letter)
}

/// The first of `dirs`, from number `i` on, that is on the drive with this letter;
/// else the root of the drive.
pub open spec fn drive_dir(
    platform: Platform,
    dirs: Seq<Seq<char>>,
    letter: char,
    i: int,
) -> Seq<char>
    decreases dirs.len() - i,
{
    if !(0 <= i < dirs.len()) {
        seq![letter, ':', '\\']
    } else if on_drive(platform, dirs[i], letter) {
        dirs[i]
    } else {
        drive_dir(platform, dirs, letter, i + 1)
    }
}

/// The path that `s` stands for in the working directory `cwd`. A path that is
/// relative to a drive starts at the current directory of that drive, which is
/// `cwd` or among `drive_dirs`, or else at the drive's root.
pub open spec fn absolute_of(
    platform: Platform,
    cwd: Seq<char>,
    drive_dirs: Seq<Seq<char>>,
    s: Seq<char>,
) -> Seq<char> {
    if is_drive_relative(platform, s) {
        let base = if on_drive(platform, cwd, s[0]) {
            cwd
        } else {
            drive_dir(platform, drive_dirs, s[0], 0)
        };
        if needs_sep(platform, base) {
            base + main_sep(platform) + s.skip(2)
        } else {
            base + s.skip(2)
        }
    } else {
        joined_path(platform, cwd, s)
    }
}

fn same_letter(a: char, b: char) -> (r: bool)
    requires
        'A' <= a <= 'z',
        'A' <= b <= 'z',
    ensures
        r == (letter_number(a) == letter_number(b)),
{
    let x: u32 = if 'a' <= a {
        a as u32 - 'a' as u32
    } else {
        a as u32 - 'A' as u32
    };
    let y: u32 = if 'a' <= b {
        b as u32 - 'a' as u32
    } else {
        b as u32 - 'A' as u32
    };
    x == y
}

fn is_on_drive(platform: Platform, dir: &str, letter: char) -> (r: bool)
    requires
        'A' <= letter <= 'z',
    ensures
        r == on_drive(platform, dir@, letter),
{
    let s = chars_of(dir);
    platform == Platform::Windows && drive_found(&s, 0) && rooted_found(platform, &s)
        && same_letter(s[0], letter)
}

/// The path that `path` stands for in the working directory `cwd`. `drive_dirs`
/// holds the current directories of other drives, on Windows.
pub fn absolute_path(platform: Platform, cwd: &str, drive_dirs: &Vec<String>, path: &str) -> (r:
    String)
    ensures
        r@ == absolute_of(platform, cwd@, drive_dirs.deep_view(), path@),
{
    let s = chars_of(path);
    if !(platform == Platform::Windows && drive_found(&s, 0)) || rooted_found(platform, &s) {
        return join_path(platform, cwd, path);
    }
    let letter = s[0];
    let mut base: String = path.substring_char(0, 2).to_owned();
    if is_on_drive(platform, cwd, letter) {
        base = cwd.to_owned();
    } else {
        let ghost dirs = drive_dirs.deep_view();
        base.append("\\");
        proof {
            reveal_strlit("\\");
            assert(base@ =~= seq![letter, ':', '\\']);
        }
        let mut i: usize = drive_dirs.len();
        while i > 0
            invariant
                i <= drive_dirs.len(),
                dirs == drive_dirs.deep_view(),
                'A' <= letter <= 'z',
                base@ == drive_dir(platform, dirs, letter, i as int),
            decreases i,
        {
            i -= 1;
            if is_on_drive(platform, drive_dirs[i].as_str(), letter) {
                base = drive_dirs[i].clone();
            }
        }
    }
    let b = chars_of(base.as_str());
    proof {
        assert(path@.subrange(2, path@.len() as int) =~= path@.skip(2));
    }
    if b.len() > 0 && !sep(platform, b[b.len() - 1]) && !(drive_found(&b, 0) && b.len() == 2) {
        base.append(main_sep_text(platform));
    }
    base.append(path.substring_char(2, s.len()));
    base
}

// ---------------------------------------------------------------------------
// Laws
// ---------------------------------------------------------------------------

/// Taking the parent never cuts into the prefix or the root: what it gives is a
/// shorter beginning of the path that still holds both.
pub proof fn law_parent_keeps_prefix_and_root(platform: Platform, s: Seq<char>)
    requires
        parent_of(platform, s) is Some,
    ensures
        root_len(platform, s) <= parent_of(platform, s)->0.len() < s.len(),
        parent_of(platform, s)->0 == s.take(parent_of(platform, s)->0.len() as int),
{
    let verbatim = is_verbatim(platform, s);
    let low = head_len(platform, s);
    let end = tidy_to(platform, verbatim, s, low, s.len() as int);
    lemma_head_len(platform, s);
    lemma_tidy_to(platform, verbatim, s, low, s.len() as int);
    if end > low {
        let start = component_start(platform, verbatim, s, low, end);
        lemma_component_start(platform, verbatim, s, low, end);
        lemma_tidy_to(platform, verbatim, s, low, without_component(low, start));
    } else {
        assert(s.take(0) =~= Seq::empty());
    }
}

/// A path that is nothing but a prefix, a root, or both has no parent.
pub proof fn law_roots_have_no_parent(platform: Platform, s: Seq<char>)
    requires
        s.len() == root_len(platform, s),
    ensures
        parent_of(platform, s) is None,
{
    lemma_prefix_len(platform, s);
}

/// An absolute path stands alone, whatever it is joined to.
pub proof fn law_absolute_paths_stand_alone(platform: Platform, dir: Seq<char>, rel: Seq<char>)
    requires
        is_absolute(platform, rel),
    ensures
        joined_path(platform, dir, rel) == rel,
{
    if platform == Platform::Unix {
        assert(dir.take(0) + rel =~= rel);
    }
}

proof fn lemma_prefix_survives(platform: Platform, s: Seq<char>, t: Seq<char>)
    requires
        platform == Platform::Windows,
        prefix_len(platform, s) > 0,
        !has_drive(platform, s),
        prefix_len(platform, s) <= t.len(),
        t.take(prefix_len(platform, s)) == s.take(prefix_len(platform, s)),
    ensures
        prefix_len(platform, t) > 0,
        !has_drive(platform, t),
{
    let n = prefix_len(platform, s);
    lemma_prefix_len(platform, s);
    lemma_prefix_len(platform, t);
    assert forall|i: int| 0 <= i < n implies #[trigger] t[i] == s[i] by {
        assert(t.take(n)[i] == s.take(n)[i]);
    }
    assert(t[0] == s[0] && t[1] == s[1] && t[2] == s[2] && t[3] == s[3]);
    if !is_verbatim(platform, s) {
        if s[2] == '.' && is_sep(platform, s[3]) {
            lemma_component_end(platform, false, t, 4);
        } else {
            let server = component_end(platform, false, s, 2);
            lemma_component_end(platform, false, s, 2);
            lemma_component_end(platform, false, s, server + 1);
            lemma_component_end(platform, false, t, 2);
            let other = component_end(platform, false, t, 2);
            assert(other == server) by {
                if other < server {
                    assert(t[other] == s[other]);
                }
                if other > server {
                    assert(t[server] == s[server]);
                }
            }
            lemma_component_end(platform, false, t, server + 1);
            assert(t[server + 1] == s[server + 1]);
            assert(!divides(platform, false, s[server + 1]));
        }
    }
}

/// Any path without a prefix, joined to an absolute directory, is absolute.
pub proof fn law_joining_to_an_absolute_directory(
    platform: Platform,
    dir: Seq<char>,
    rel: Seq<char>,
)
    requires
        is_absolute(platform, dir),
        prefix_len(platform, rel) == 0,
    ensures
        is_absolute(platform, joined_path(platform, dir, rel)),
{
    let path = joined_path(platform, dir, rel);
    let n = prefix_len(platform, dir);
    lemma_prefix_len(platform, dir);
    if platform == Platform::Windows {
        assert(path.take(n) =~= dir.take(n));
        assert forall|i: int| 0 <= i < n implies #[trigger] path[i] == dir[i] by {
            assert(path.take(n)[i] == dir.take(n)[i]);
        }
        if has_drive(platform, dir) {
            assert(path[0] == dir[0] && path[1] == dir[1]);
        } else {
            lemma_prefix_survives(platform, dir, path);
        }
    }
}

proof fn lemma_drive_dir(platform: Platform, dirs: Seq<Seq<char>>, letter: char, i: int)
    requires
        platform == Platform::Windows,
        drive_at(seq![letter, ':'], 0),
        0 <= i,
    ensures
        on_drive(platform, drive_dir(platform, dirs, letter, i), letter),
    decreases dirs.len() - i,
{
    if i < dirs.len() && !on_drive(platform, dirs[i], letter) {
        lemma_drive_dir(platform, dirs, letter, i + 1);
    }
}

/// In an absolute working directory every path stands for an absolute one, and an
/// absolute path stands for itself.
pub proof fn law_absolute_of_is_absolute(
    platform: Platform,
    cwd: Seq<char>,
    drive_dirs: Seq<Seq<char>>,
    s: Seq<char>,
)
    ensures
        is_absolute(platform, cwd) ==> is_absolute(
            platform,
            absolute_of(platform, cwd, drive_dirs, s),
        ),
        is_absolute(platform, s) ==> absolute_of(platform, cwd, drive_dirs, s) == s,
{
    let path = absolute_of(platform, cwd, drive_dirs, s);
    lemma_prefix_len(platform, s);
    if is_drive_relative(platform, s) {
        lemma_drive_dir(platform, drive_dirs, s[0], 0);
        let base = if on_drive(platform, cwd, s[0]) {
            cwd
        } else {
            drive_dir(platform, drive_dirs, s[0], 0)
        };
        assert(path[0] == base[0] && path[1] == base[1] && path[2] == base[2]);
    } else if is_absolute(platform, s) {
        law_absolute_paths_stand_alone(platform, cwd, s);
    } else if is_absolute(platform, cwd) {
        law_joining_to_an_absolute_directory(platform, cwd, s);
    }
}

/// On Unix, a plain file name joined to a directory has that directory as its
/// parent again, apart from trailing separators and `.` components.
pub proof fn law_parent_of_join(dir: Seq<char>, name: Seq<char>)
    requires
        name.len() > 0,
        name != seq!['.'],
        forall|i: int| 0 <= i < name.len() ==> !is_sep(Platform::Unix, #[trigger] name[i]),
    ensures
        parent_of(Platform::Unix, joined_path(Platform::Unix, dir, name)) == Some(
            tidy_end(Platform::Unix, dir),
        ),
{
    let p = Platform::Unix;
    let path = joined_path(p, dir, name);
    let base = path.len() - name.len();
    let low = head_len(p, path);
    assert(!is_sep(p, name[0]));
    assert(forall|i: int| 0 <= i < dir.len() ==> #[trigger] path[i] == dir[i]);
    assert forall|i: int| base <= i < path.len() implies !is_sep(p, #[trigger] path[i]) by {
        assert(path[i] == name[i - base]);
    }
    if name.len() == 1 {
        assert(name[0] != '.') by {
            if name[0] == '.' {
                assert(name =~= seq!['.']);
            }
        }
    } else {
        assert(!is_sep(p, name[1]));
    }
    assert(path[base] == name[0]);
    if dir.len() == 0 {
        assert(base == 0);
        assert(low == 0) by {
            if path.len() > 1 {
                assert(path[1] == name[1]);
            }
        }
    } else {
        assert(low == head_len(p, dir));
    }
    lemma_head_len(p, dir);
    lemma_unbroken(path, low, base, path.len() as int);
    lemma_same_tidy(path, dir, low, dir.len() as int);
    if base > dir.len() {
        assert(path[dir.len() as int] == '/');
        assert(without_component(low, base) == dir.len());
    } else if dir.len() > low {
        assert(is_sep(p, dir.last()));
        assert(component_start(p, false, dir, low, dir.len() as int) == dir.len());
        lemma_same_tidy(path, dir, low, dir.len() - 1);
    }
    lemma_tidy_to(p, false, dir, low, dir.len() as int);
    let cut = tidy_to(p, false, dir, low, dir.len() as int);
    assert(path.take(cut) =~= dir.take(cut));
}

/// The last component of a Unix path starts behind the last separator.
proof fn lemma_unbroken(s: Seq<char>, low: int, start: int, end: int)
    requires
        0 <= low <= start < end <= s.len(),
        start == low || is_sep(Platform::Unix, s[start - 1]),
        forall|i: int| start <= i < end ==> !is_sep(Platform::Unix, #[trigger] s[i]),
    ensures
        component_start(Platform::Unix, false, s, low, end) == start,
    decreases end - start,
{
    assert(!is_sep(Platform::Unix, s[end - 1]));
    if end - 1 > start {
        lemma_unbroken(s, low, start, end - 1);
    } else {
        assert(component_start(Platform::Unix, false, s, low, start) == start);
    }
}

proof fn lemma_same_start(s: Seq<char>, t: Seq<char>, low: int, end: int)
    requires
        0 <= low <= end <= s.len(),
        end <= t.len(),
        forall|i: int| 0 <= i < end ==> #[trigger] s[i] == t[i],
    ensures
        component_start(Platform::Unix, false, s, low, end) == component_start(
            Platform::Unix,
            false,
            t,
            low,
            end,
        ),
    decreases end - low,
{
    if end > low {
        assert(s[end - 1] == t[end - 1]);
        if !is_sep(Platform::Unix, s[end - 1]) {
            lemma_same_start(s, t, low, end - 1);
        }
    }
}

proof fn lemma_same_tidy(s: Seq<char>, t: Seq<char>, low: int, end: int)
    requires
        0 <= low <= end <= s.len(),
        end <= t.len(),
        forall|i: int| 0 <= i < end ==> #[trigger] s[i] == t[i],
    ensures
        tidy_to(Platform::Unix, false, s, low, end) == tidy_to(Platform::Unix, false, t, low, end),
    decreases end - low,
{
    if end > low {
        lemma_same_start(s, t, low, end);
        let start = component_start(Platform::Unix, false, s, low, end);
        lemma_component_start(Platform::Unix, false, s, low, end);
        if start < end {
            assert(s[start] == t[start]);
        }
        lemma_same_tidy(s, t, low, without_component(low, start));
    }
}

/// On Unix `/` alone divides components and there are no prefixes; on Windows `/` and `\`
/// divide them, and after a verbatim prefix `\` alone.
pub proof fn law_separators(c: char, s: Seq<char>)
    ensures
        is_sep(Platform::Unix, c) <==> c == '/',
        is_sep(Platform::Windows, c) <==> c == '/' || c == '\\',
        divides(Platform::Unix, false, c) <==> c == '/',
        divides(Platform::Windows, false, c) <==> c == '/' || c == '\\',
        divides(Platform::Windows, true, c) <==> c == '\\',
        main_sep(Platform::Unix) =~= seq!['/'],
        main_sep(Platform::Windows) =~= seq!['\\'],
        prefix_len(Platform::Unix, s) == 0,
        !is_verbatim(Platform::Unix, s),
{
}

/// Joining on Unix: a path that begins at the root stands alone, and any other follows the
/// directory, with a slash in between unless the directory is empty or ends in one.
pub proof fn law_joining_on_unix(dir: Seq<char>, rel: Seq<char>)
    ensures
        ({
            let path = joined_path(Platform::Unix, dir, rel);
            &&& rel.len() > 0 && rel[0] == '/' ==> path == rel
            &&& (rel.len() == 0 || rel[0] != '/') && dir.len() == 0 ==> path == rel
            &&& (rel.len() == 0 || rel[0] != '/') && dir.len() > 0 && dir.last() == '/' ==> path
                == dir + rel
            &&& (rel.len() == 0 || rel[0] != '/') && dir.len() > 0 && dir.last() != '/' ==> path
                == dir + seq!['/'] + rel
        }),
{
    assert(dir.take(0) + rel =~= rel);
    if dir.len() == 0 {
        assert(dir + rel =~= rel);
    }
}

/// What follows the last component on Unix does not matter to the parent: neither a
/// slash nor a `.` behind one. The parent of `.` is empty.
pub proof fn law_parents_on_unix(s: Seq<char>)
    requires
        s.len() > 0,
    ensures
        parent_of(Platform::Unix, s.push('/')) == parent_of(Platform::Unix, s),
        parent_of(Platform::Unix, s.push('/').push('.')) == parent_of(Platform::Unix, s),
        parent_of(Platform::Unix, seq!['.']) == Some(Seq::<char>::empty()),
        parent_of(Platform::Unix, seq!['/']) is None,
        parent_of(Platform::Unix, Seq::empty()) is None,
{
    lemma_longer_parent(s, s.push('/'));
    lemma_longer_parent(s, s.push('/').push('.'));
    law_roots_have_no_parent(Platform::Unix, seq!['/']);
    law_roots_have_no_parent(Platform::Unix, Seq::empty());
}

proof fn lemma_longer_parent(s: Seq<char>, t: Seq<char>)
    requires
        s.len() > 0,
        t == s.push('/') || t == s.push('/').push('.'),
    ensures
        parent_of(Platform::Unix, t) == parent_of(Platform::Unix, s),
{
    let p = Platform::Unix;
    let n = s.len() as int;
    let low = head_len(p, s);
    lemma_head_len(p, s);
    assert(forall|i: int| 0 <= i < n ==> #[trigger] t[i] == s[i]);
    assert(t[n] == '/');
    assert(t[0] == s[0]);
    assert(head_len(p, t) == low);
    assert(component_start(p, false, t, low, n + 1) == n + 1);
    assert(tidy_to(p, false, t, low, n + 1) == tidy_to(p, false, t, low, n));
    if t.len() == n + 2 {
        assert(t[n + 1] == '.');
        assert(component_start(p, false, t, low, n + 2) == n + 1);
        assert(tidy_to(p, false, t, low, n + 2) == tidy_to(p, false, t, low, n));
    }
    lemma_same_tidy(t, s, low, n);
    lemma_tidy_to(p, false, s, low, n);
    let end = tidy_to(p, false, s, low, n);
    if end > low {
        lemma_same_start(t, s, low, end);
        lemma_component_start(p, false, s, low, end);
        let cut = without_component(low, component_start(p, false, s, low, end));
        lemma_same_tidy(t, s, low, cut);
        lemma_tidy_to(p, false, s, low, cut);
        let k = tidy_to(p, false, s, low, cut);
        assert(t.take(k) =~= s.take(k));
    }
}

/// Whether `c` is a letter that can name a drive.
pub open spec fn is_drive_letter(c: char) -> bool {
    'a' <= c <= 'z' || 'A' <= c <= 'Z'
}

/// A drive is a letter and a colon. It makes a path absolute only together with a
/// separator behind it.
pub proof fn law_drives(letter: char, rest: Seq<char>)
    requires
        is_drive_letter(letter),
    ensures
        prefix_len(Platform::Windows, seq![letter, ':'] + rest) == 2,
        !is_verbatim(Platform::Windows, seq![letter, ':'] + rest),
        is_absolute(Platform::Windows, seq![letter, ':'] + rest) <==> rest.len() > 0 && (rest[0]
            == '/' || rest[0] == '\\'),
        parent_of(Platform::Windows, seq![letter, ':']) is None,
        parent_of(Platform::Windows, seq![letter, ':', '\\']) is None,
{
    let s = seq![letter, ':'] + rest;
    assert(s[0] == letter && s[1] == ':');
    if rest.len() > 0 {
        assert(s[2] == rest[0]);
    }
    law_roots_have_no_parent(Platform::Windows, seq![letter, ':']);
    law_roots_have_no_parent(Platform::Windows, seq![letter, ':', '\\']);
}

/// Whether `s` holds no separator of Windows.
pub open spec fn no_sep(s: Seq<char>) -> bool {
    forall|k: int| 0 <= k < s.len() ==> #[trigger] s[k] != '/' && s[k] != '\\'
}

/// Whether `s` holds no backslash.
pub open spec fn no_backslash(s: Seq<char>) -> bool {
    forall|k: int| 0 <= k < s.len() ==> #[trigger] s[k] != '\\'
}

/// Whether `c` is a separator of Windows.
pub open spec fn windows_sep(c: char) -> bool {
    c == '/' || c == '\\'
}

proof fn lemma_component_stretch(verbatim: bool, s: Seq<char>, i: int, name: Seq<char>)
    requires
        0 <= i,
        i + name.len() <= s.len(),
        name =~= s.subrange(i, i + name.len()),
        verbatim ==> no_backslash(name),
        !verbatim ==> no_sep(name),
        i + name.len() < s.len() ==> divides(Platform::Windows, verbatim, s[i + name.len()]),
    ensures
        component_end(Platform::Windows, verbatim, s, i) == i + name.len(),
{
    lemma_component_end(Platform::Windows, verbatim, s, i);
    let end = component_end(Platform::Windows, verbatim, s, i);
    if end < i + name.len() {
        assert(name[end - i] == s[end]);
    }
}

/// A share is two separators, the server, a separator and the share, and a path on it is
/// absolute. `.` and `?` in place of the server mean something else.
pub proof fn law_shares(
    a: char,
    b: char,
    server: Seq<char>,
    c: char,
    share: Seq<char>,
    rest: Seq<char>,
)
    requires
        windows_sep(a),
        windows_sep(b),
        windows_sep(c),
        no_sep(server),
        server.len() > 0,
        server != seq!['.'],
        server != seq!['?'],
        no_sep(share),
        share.len() > 0,
        rest.len() == 0 || windows_sep(rest[0]),
    ensures
        ({
            let s = seq![a, b] + server + seq![c] + share + rest;
            &&& prefix_len(Platform::Windows, s) == 2 + server.len() + 1 + share.len()
            &&& !is_verbatim(Platform::Windows, s)
            &&& is_absolute(Platform::Windows, s)
        }),
{
    let s = seq![a, b] + server + seq![c] + share + rest;
    let n = server.len() as int;
    assert(s[0] == a && s[1] == b && s[2] == server[0]);
    assert(s[2 + n] == c);
    if n == 1 {
        assert(s[3] == c);
        if server[0] == '.' {
            assert(server =~= seq!['.']);
        }
        if server[0] == '?' {
            assert(server =~= seq!['?']);
        }
    } else {
        assert(s[3] == server[1]);
    }
    assert(s.subrange(2, 2 + n) =~= server);
    lemma_component_stretch(false, s, 2, server);
    assert(s.subrange(3 + n, 3 + n + share.len()) =~= share);
    if rest.len() > 0 {
        assert(s[3 + n + share.len()] == rest[0]);
    }
    lemma_component_stretch(false, s, 3 + n, share);
}

/// A device is two separators, a dot, a separator and a name, and is absolute.
pub proof fn law_devices(a: char, b: char, c: char, name: Seq<char>, rest: Seq<char>)
    requires
        windows_sep(a),
        windows_sep(b),
        windows_sep(c),
        no_sep(name),
        rest.len() == 0 || windows_sep(rest[0]),
    ensures
        ({
            let s = seq![a, b, '.', c] + name + rest;
            &&& prefix_len(Platform::Windows, s) == 4 + name.len()
            &&& !is_verbatim(Platform::Windows, s)
            &&& is_absolute(Platform::Windows, s)
        }),
{
    let s = seq![a, b, '.', c] + name + rest;
    assert(s[0] == a && s[1] == b && s[2] == '.' && s[3] == c);
    assert(s.subrange(4, 4int + name.len()) =~= name);
    if rest.len() > 0 {
        assert(s[4int + name.len()] == rest[0]);
    }
    lemma_component_stretch(false, s, 4, name);
}

/// A verbatim prefix holds a drive, a share, or any other name up to the next backslash,
/// and a path behind it is absolute.
pub proof fn law_verbatim_prefixes(
    letter: char,
    rest: Seq<char>,
    server: Seq<char>,
    share: Seq<char>,
    c: char,
    tail: Seq<char>,
    name: Seq<char>,
)
    requires
        is_drive_letter(letter),
        rest.len() == 0 || windows_sep(rest[0]),
        no_backslash(server),
        no_backslash(share),
        share.len() > 0,
        windows_sep(c),
        tail.len() == 0 || tail[0] == '\\',
        no_backslash(name),
        !(name.len() >= 2 && is_drive_letter(name[0]) && name[1] == ':' && (name.len() == 2
            || name[2] == '/')),
        !(name.len() >= 3 && name[0] == 'U' && name[1] == 'N' && name[2] == 'C' && (name.len() == 3
            || name[3] == '/')),
    ensures
        ({
            let drive = seq!['\\', '\\', '?', '\\', letter, ':'] + rest;
            let unc = seq!['\\', '\\', '?', '\\', 'U', 'N', 'C', c] + server + seq!['\\'] + share
                + tail;
            let other = seq!['\\', '\\', '?', '\\'] + name + tail;
            &&& is_verbatim(Platform::Windows, drive)
            &&& prefix_len(Platform::Windows, drive) == 6
            &&& is_absolute(Platform::Windows, drive)
            &&& is_verbatim(Platform::Windows, unc)
            &&& prefix_len(Platform::Windows, unc) == 8 + server.len() + 1 + share.len()
            &&& is_absolute(Platform::Windows, unc)
            &&& is_verbatim(Platform::Windows, other)
            &&& prefix_len(Platform::Windows, other) == 4 + name.len()
            &&& is_absolute(Platform::Windows, other)
        }),
{
    let p = Platform::Windows;
    let drive = seq!['\\', '\\', '?', '\\', letter, ':'] + rest;
    assert(drive[0] == '\\' && drive[1] == '\\' && drive[2] == '?' && drive[3] == '\\');
    assert(drive[4] == letter && drive[5] == ':');
    if rest.len() > 0 {
        assert(drive[6] == rest[0]);
    }
    let unc = seq!['\\', '\\', '?', '\\', 'U', 'N', 'C', c] + server + seq!['\\'] + share + tail;
    let n = server.len() as int;
    assert(unc[0] == '\\' && unc[1] == '\\' && unc[2] == '?' && unc[3] == '\\');
    assert(unc[4] == 'U' && unc[5] == 'N' && unc[6] == 'C' && unc[7] == c);
    assert(unc[8 + n] == '\\');
    assert(unc.subrange(8, 8 + n) =~= server);
    lemma_component_stretch(true, unc, 8, server);
    assert(unc.subrange(9 + n, 9 + n + share.len()) =~= share);
    if tail.len() > 0 {
        assert(unc[9 + n + share.len()] == tail[0]);
    }
    lemma_component_stretch(true, unc, 9 + n, share);
    let other = seq!['\\', '\\', '?', '\\'] + name + tail;
    let m = name.len() as int;
    assert(other[0] == '\\' && other[1] == '\\' && other[2] == '?' && other[3] == '\\');
    assert(forall|k: int| 0 <= k < m ==> other[4 + k] == #[trigger] name[k]);
    if tail.len() > 0 {
        assert(other[4 + m] == tail[0]);
    }
    assert(other.subrange(4, 4 + m) =~= name);
    lemma_component_stretch(true, other, 4, name);
    assert(!(other.len() >= 8 && other[4] == 'U' && other[5] == 'N' && other[6] == 'C' && is_sep(
        p,
        other[7],
    )) || prefix_len(p, other) == 4 + m) by {
        if other.len() >= 8 && other[4] == 'U' && other[5] == 'N' && other[6] == 'C' && is_sep(
            p,
            other[7],
        ) {
            lemma_not_a_share(name, tail);
        }
    }
    assert(!drive_at(other, 4) || !(other.len() == 6 || is_sep(p, other[6]))) by {
        if drive_at(other, 4) && (other.len() == 6 || is_sep(p, other[6])) {
            if m >= 2 {
                assert(name[0] == other[4] && name[1] == other[5]);
                if m > 2 {
                    assert(name[2] == other[6]);
                }
            } else if m == 1 {
                assert(other[5] == tail[0]);
            } else {
                assert(other[4] == tail[0]);
            }
        }
    }
}

proof fn lemma_not_a_share(name: Seq<char>, tail: Seq<char>)
    requires
        no_backslash(name),
        tail.len() == 0 || tail[0] == '\\',
        !(name.len() >= 3 && name[0] == 'U' && name[1] == 'N' && name[2] == 'C' && (name.len() == 3
            || name[3] == '/')),
    ensures
        ({
            let other = seq!['\\', '\\', '?', '\\'] + name + tail;
            !(other.len() >= 8 && other[4] == 'U' && other[5] == 'N' && other[6] == 'C' && is_sep(
                Platform::Windows,
                other[7],
            ))
        }),
{
    let other = seq!['\\', '\\', '?', '\\'] + name + tail;
    if other.len() >= 8 && other[4] == 'U' && other[5] == 'N' && other[6] == 'C' {
        if name.len() == 0 {
            assert(other[4] == tail[0]);
        } else if name.len() == 1 {
            assert(other[5] == tail[0]);
        } else if name.len() == 2 {
            assert(other[6] == tail[0]);
        } else {
            assert(other[4] == name[0] && other[5] == name[1] && other[6] == name[2]);
            if name.len() > 3 {
                assert(other[7] == name[3]);
            }
        }
    }
}

/// A Windows path that begins neither with a drive nor with two separators has no prefix,
/// and is not absolute.
pub proof fn law_no_prefix(s: Seq<char>)
    requires
        !(s.len() >= 2 && is_drive_letter(s[0]) && s[1] == ':'),
        !(s.len() >= 2 && windows_sep(s[0]) && windows_sep(s[1])),
    ensures
        prefix_len(Platform::Windows, s) == 0,
        !is_verbatim(Platform::Windows, s),
        !is_absolute(Platform::Windows, s),
{
}

/// Joining on Windows, to a directory that is not verbatim: a path with a prefix stands
/// alone; one with a root keeps the prefix of the directory; any other follows the
/// directory, with a backslash in between unless the directory is empty, ends in a
/// separator or is a bare drive.
pub proof fn law_joining_on_windows(dir: Seq<char>, rel: Seq<char>)
    requires
        !is_verbatim(Platform::Windows, dir) || rel.len() == 0,
    ensures
        ({
            let p = Platform::Windows;
            let path = joined_path(p, dir, rel);
            let rooted = rel.len() > 0 && windows_sep(rel[0]);
            let bare_drive = dir.len() == 2 && is_drive_letter(dir[0]) && dir[1] == ':';
            let plain = prefix_len(p, rel) == 0 && !rooted;
            &&& prefix_len(p, rel) > 0 ==> path == rel
            &&& prefix_len(p, rel) == 0 && rooted ==> path == dir.take(prefix_len(p, dir)) + rel
            &&& plain && (dir.len() == 0 || windows_sep(dir.last()) || bare_drive) ==> path == dir
                + rel
            &&& plain && dir.len() > 0 && !windows_sep(dir.last()) && !bare_drive ==> path == dir
                + seq!['\\'] + rel
        }),
{
}

/// Joining to a verbatim directory: the prefix stays, and behind it come, divided by
/// backslashes, the names that are left when the path is followed from the directory.
pub proof fn law_joining_to_a_verbatim_directory(
    dir: Seq<char>,
    rel: Seq<char>,
    names: Seq<Seq<char>>,
)
    requires
        is_verbatim(Platform::Windows, dir),
        prefix_len(Platform::Windows, rel) == 0,
        rel.len() > 0,
        windows_sep(rel[0]) ==> names == following_all(
            Seq::empty(),
            pieces(Platform::Windows, false, rel, 0, rel.len() as int),
        ),
        !windows_sep(rel[0]) ==> names == following_all(
            pieces(
                Platform::Windows,
                true,
                dir,
                root_len(Platform::Windows, dir),
                dir.len() as int,
            ),
            pieces(Platform::Windows, false, rel, 0, rel.len() as int),
        ),
    ensures
        ({
            let p = Platform::Windows;
            let path = joined_path(p, dir, rel);
            let prefix = dir.take(prefix_len(p, dir));
            let rooted = windows_sep(rel[0]) || (prefix_len(p, dir) < dir.len() && windows_sep(
                dir[prefix_len(p, dir)],
            ));
            &&& names.len() > 0 ==> path == prefix + seq!['\\'] + joined(names, seq!['\\'])
            &&& names.len() == 0 && rooted ==> path == prefix + seq!['\\']
            &&& names.len() == 0 && !rooted ==> path == prefix
        }),
{
    let p = Platform::Windows;
    let prefix = dir.take(prefix_len(p, dir));
    assert(main_sep(p) =~= seq!['\\']);
    if names.len() == 0 {
        assert(joined(names, seq!['\\']) =~= Seq::empty());
        assert(prefix + seq!['\\'] + Seq::<char>::empty() =~= prefix + seq!['\\']);
        assert(prefix + Seq::<char>::empty() + Seq::<char>::empty() =~= prefix);
    }
}

/// Following parts: one after the other, a name goes in, `..` goes out of a name, and
/// `.` and a `..` with no name to leave go nowhere.
pub proof fn law_following(
    stack: Seq<Seq<char>>,
    name: Seq<char>,
    a: Seq<Seq<char>>,
    b: Seq<Seq<char>>,
)
    requires
        name != seq!['.'],
        name != seq!['.', '.'],
    ensures
        following_all(stack, Seq::empty()) == stack,
        following_all(stack, seq![name]) == stack.push(name),
        following_all(stack, seq![seq!['.']]) == stack,
        following_all(stack.push(name), seq![seq!['.', '.']]) == stack,
        following_all(Seq::empty(), seq![seq!['.', '.']]) == Seq::<Seq<char>>::empty(),
        following_all(stack, a + b) == following_all(following_all(stack, a), b),
    decreases b.len(),
{
    reveal_strlit(".");
    reveal_strlit("..");
    assert("."@ =~= seq!['.']);
    assert(".."@ =~= seq!['.', '.']);
    let up = seq!['.', '.'];
    assert(up.len() == 2 && seq!['.'].len() == 1);
    assert(seq![name].drop_last() =~= Seq::empty());
    assert(seq![seq!['.']].drop_last() =~= Seq::empty());
    assert(seq![up].drop_last() =~= Seq::empty());
    assert(stack.push(name).drop_last() =~= stack);
    assert(following_all(stack, seq![name].drop_last()) == stack);
    assert(following_all(stack, seq![seq!['.']].drop_last()) == stack);
    assert(following_all(stack.push(name), seq![up].drop_last()) == stack.push(name));
    assert(following_all(Seq::empty(), seq![up].drop_last()) == Seq::<Seq<char>>::empty());
    if b.len() == 0 {
        assert(a + b =~= a);
    } else {
        assert((a + b).drop_last() =~= a + b.drop_last());
        law_following(stack, name, a, b.drop_last());
    }
}

/// Pieces are what the separators leave: a stretch without one is a single piece, and the
/// pieces around a separator are those before it and those behind it.
pub proof fn law_pieces(
    platform: Platform,
    verbatim: bool,
    s: Seq<char>,
    low: int,
    m: int,
    end: int,
)
    requires
        0 <= low <= end <= s.len(),
    ensures
        low == end ==> pieces(platform, verbatim, s, low, end).len() == 0,
        low < end && (forall|k: int| low <= k < end ==> !divides(platform, verbatim, #[trigger] s[k]))
            ==> pieces(platform, verbatim, s, low, end) =~= seq![s.subrange(low, end)],
        low <= m < end && divides(platform, verbatim, s[m]) ==> pieces(
            platform,
            verbatim,
            s,
            low,
            end,
        ) == pieces(platform, verbatim, s, low, m) + pieces(platform, verbatim, s, m + 1, end),
{
    if low < end && (forall|k: int|
        low <= k < end ==> !divides(platform, verbatim, #[trigger] s[k])) {
        lemma_whole_component(platform, verbatim, s, low, end);
        assert(pieces(platform, verbatim, s, low, low) =~= Seq::empty());
        assert(pieces(platform, verbatim, s, low, end) =~= seq![s.subrange(low, end)]);
    }
    if low <= m < end && divides(platform, verbatim, s[m]) {
        lemma_split_pieces(platform, verbatim, s, low, m, end);
    }
}

proof fn lemma_whole_component(
    platform: Platform,
    verbatim: bool,
    s: Seq<char>,
    low: int,
    end: int,
)
    requires
        0 <= low <= end <= s.len(),
        forall|k: int| low <= k < end ==> !divides(platform, verbatim, #[trigger] s[k]),
    ensures
        component_start(platform, verbatim, s, low, end) == low,
    decreases end - low,
{
    if low < end {
        assert(!divides(platform, verbatim, s[end - 1]));
        lemma_whole_component(platform, verbatim, s, low, end - 1);
    }
}

proof fn lemma_start_behind(
    platform: Platform,
    verbatim: bool,
    s: Seq<char>,
    low: int,
    m: int,
    end: int,
)
    requires
        0 <= low <= m < end <= s.len(),
        divides(platform, verbatim, s[m]),
    ensures
        component_start(platform, verbatim, s, low, end) == component_start(
            platform,
            verbatim,
            s,
            m + 1,
            end,
        ),
    decreases end - m,
{
    if end > m + 1 && !divides(platform, verbatim, s[end - 1]) {
        lemma_start_behind(platform, verbatim, s, low, m, end - 1);
    }
}

proof fn lemma_split_pieces(
    platform: Platform,
    verbatim: bool,
    s: Seq<char>,
    low: int,
    m: int,
    end: int,
)
    requires
        0 <= low <= m < end <= s.len(),
        divides(platform, verbatim, s[m]),
    ensures
        pieces(platform, verbatim, s, low, end) == pieces(platform, verbatim, s, low, m) + pieces(
            platform,
            verbatim,
            s,
            m + 1,
            end,
        ),
    decreases end - m,
{
    lemma_start_behind(platform, verbatim, s, low, m, end);
    lemma_component_start(platform, verbatim, s, m + 1, end);
    let start = component_start(platform, verbatim, s, m + 1, end);
    let left = pieces(platform, verbatim, s, low, m);
    let right = pieces(platform, verbatim, s, m + 1, end);
    if end == m + 1 {
        assert(left + right =~= left);
    } else if start > m + 1 {
        lemma_split_pieces(platform, verbatim, s, low, m, start - 1);
        assert(pieces(platform, verbatim, s, low, end) =~= left + right);
    } else {
        assert(pieces(platform, verbatim, s, m + 1, m + 1) =~= Seq::empty());
        assert(pieces(platform, verbatim, s, low, end) =~= left + right);
    }
}

/// Whether the character at `k` is a separator, or a dot between separators.
pub open spec fn is_filler(platform: Platform, verbatim: bool, s: Seq<char>, k: int) -> bool {
    divides(platform, verbatim, s[k]) || (!verbatim && s[k] == '.' && (k + 1 >= s.len() || divides(
        platform,
        verbatim,
        s[k + 1],
    )) && (k == 0 || divides(platform, verbatim, s[k - 1])))
}

/// Whether everything in `s` is a separator or a dot that stands alone.
pub open spec fn only_filler(platform: Platform, verbatim: bool, s: Seq<char>) -> bool {
    forall|k: int| 0 <= k < s.len() ==> #[trigger] is_filler(platform, verbatim, s, k)
}

/// A parent is the path without its last component: what is taken off is a single name
/// and the separators and dots around it, and of what is left the end is no separator
/// that could be taken off too.
pub proof fn law_a_parent_lacks_one_name(platform: Platform, s: Seq<char>) -> (parts: (
    Seq<char>,
    Seq<char>,
    Seq<char>,
))
    requires
        parent_of(platform, s) is Some,
        parent_of(platform, s)->0.len() >= head_len(platform, s),
    ensures
        ({
            let verbatim = is_verbatim(platform, s);
            let (gap, name, tail) = parts;
            let parent = parent_of(platform, s)->0;
            &&& s == parent + gap + name + tail
            &&& only_filler(platform, verbatim, gap)
            &&& only_filler(platform, verbatim, tail)
            &&& gap.len() > 0 && parent.len() > head_len(platform, s) ==> divides(
                platform,
                verbatim,
                gap[0],
            )
            &&& gap.len() > 0 ==> divides(platform, verbatim, gap.last())
            &&& gap.len() == 0 ==> parent.len() == head_len(platform, s)
            &&& tail.len() > 0 ==> divides(platform, verbatim, tail[0])
            &&& name.len() > 0
            &&& !verbatim ==> name != seq!['.']
            &&& forall|k: int|
                0 <= k < name.len() ==> !divides(platform, verbatim, #[trigger] name[k])
            &&& parent.len() > head_len(platform, s) ==> !divides(
                platform,
                verbatim,
                parent.last(),
            )
        }),
{
    let verbatim = is_verbatim(platform, s);
    let low = head_len(platform, s);
    let len = s.len() as int;
    lemma_head_len(platform, s);
    lemma_tidy_to(platform, verbatim, s, low, len);
    lemma_tidied(platform, verbatim, s, low, len);
    let end = tidy_to(platform, verbatim, s, low, len);
    assert(end > low) by {
        if end <= low {
            assert(parent_of(platform, s)->0.len() == 0);
            assert(low >= 1);
        }
    }
    let start = component_start(platform, verbatim, s, low, end);
    lemma_component_start(platform, verbatim, s, low, end);
    lemma_component_is_whole(platform, verbatim, s, low, end);
    let cut = without_component(low, start);
    lemma_tidy_to(platform, verbatim, s, low, cut);
    lemma_tidied(platform, verbatim, s, low, cut);
    let k = tidy_to(platform, verbatim, s, low, cut);
    let gap = s.subrange(k, start);
    let name = s.subrange(start, end);
    let tail = s.subrange(end, len);
    assert(s =~= s.take(k) + gap + name + tail);
    assert forall|i: int| 0 <= i < gap.len() implies #[trigger] is_filler(
        platform,
        verbatim,
        gap,
        i,
    ) by {
        assert(gap[i] == s[k + i]);
        if i + 1 < gap.len() {
            assert(gap[i + 1] == s[k + i + 1]);
        }
        if i > 0 {
            assert(gap[i - 1] == s[k + i - 1]);
        }
        if k + i >= cut {
            assert(k + i == start - 1);
        } else {
            assert(stands_alone(platform, verbatim, s, low, cut, k + i));
        }
    }
    if gap.len() > 0 {
        assert(gap[0] == s[k]);
        assert(gap.last() == s[start - 1]);
        if k < cut {
            assert(stands_alone(platform, verbatim, s, low, cut, k));
        }
    }
    assert forall|i: int| 0 <= i < tail.len() implies #[trigger] is_filler(
        platform,
        verbatim,
        tail,
        i,
    ) by {
        assert(tail[i] == s[end + i]);
        if i + 1 < tail.len() {
            assert(tail[i + 1] == s[end + i + 1]);
        }
        if i > 0 {
            assert(tail[i - 1] == s[end + i - 1]);
        }
        assert(stands_alone(platform, verbatim, s, low, len, end + i));
    }
    if tail.len() > 0 {
        assert(tail[0] == s[end]);
        assert(stands_alone(platform, verbatim, s, low, len, end));
    }
    assert forall|i: int| 0 <= i < name.len() implies !divides(
        platform,
        verbatim,
        #[trigger] name[i],
    ) by {
        assert(name[i] == s[start + i]);
    }
    assert(name.len() > 0 && (!verbatim ==> name != seq!['.'])) by {
        if !verbatim && name == seq!['.'] {
            assert(name[0] == s[start]);
            assert(name.len() == 1);
        }
    }
    (gap, name, tail)
}

/// Whether the character at `i`, within a path that is looked at from `low` to `end`, is a
/// separator or a component that is a single dot.
spec fn stands_alone(
    platform: Platform,
    verbatim: bool,
    s: Seq<char>,
    low: int,
    end: int,
    i: int,
) -> bool {
    divides(platform, verbatim, s[i]) || (!verbatim && s[i] == '.' && (i + 1 == end || divides(
        platform,
        verbatim,
        s[i + 1],
    )) && (i == low || divides(platform, verbatim, s[i - 1])))
}

/// What tidying takes off is filler, and it stops at a component that is none.
proof fn lemma_tidied(platform: Platform, verbatim: bool, s: Seq<char>, low: int, end: int)
    requires
        0 <= low <= end <= s.len(),
    ensures
        ({
            let k = tidy_to(platform, verbatim, s, low, end);
            let start = component_start(platform, verbatim, s, low, k);
            &&& low <= k <= end
            &&& forall|i: int|
                k <= i < end ==> #[trigger] stands_alone(platform, verbatim, s, low, end, i)
            &&& k > low ==> start < k && !divides(platform, verbatim, s[k - 1]) && (verbatim || start
                + 1 != k || s[start] != '.')
        }),
    decreases end - low,
{
    if end > low {
        let start = component_start(platform, verbatim, s, low, end);
        lemma_component_start(platform, verbatim, s, low, end);
        lemma_component_is_whole(platform, verbatim, s, low, end);
        if start == end || (!verbatim && start + 1 == end && s[start] == '.') {
            let cut = without_component(low, start);
            let k = tidy_to(platform, verbatim, s, low, end);
            lemma_tidied(platform, verbatim, s, low, cut);
            assert forall|i: int| k <= i < end implies #[trigger] stands_alone(
                platform,
                verbatim,
                s,
                low,
                end,
                i,
            ) by {
                if i < cut {
                    assert(stands_alone(platform, verbatim, s, low, cut, i));
                }
            }
        } else {
            assert(!divides(platform, verbatim, s[end - 1]));
        }
    }
}

proof fn lemma_component_is_whole(
    platform: Platform,
    verbatim: bool,
    s: Seq<char>,
    low: int,
    end: int,
)
    requires
        0 <= low <= end <= s.len(),
    ensures
        ({
            let start = component_start(platform, verbatim, s, low, end);
            &&& low <= start <= end
            &&& forall|i: int| start <= i < end ==> !divides(platform, verbatim, #[trigger] s[i])
            &&& start > low ==> divides(platform, verbatim, s[start - 1])
        }),
    decreases end - low,
{
    if end > low && !divides(platform, verbatim, s[end - 1]) {
        lemma_component_is_whole(platform, verbatim, s, low, end - 1);
    }
}

/// What a path stands for: in the working directory, what it is when joined to it. A path
/// on a drive but not at its root starts at the working directory if that is on the drive,
/// else at the drive's own current directory, else at its root.
pub proof fn law_what_paths_stand_for(
    platform: Platform,
    cwd: Seq<char>,
    drive_dirs: Seq<Seq<char>>,
    s: Seq<char>,
    letter: char,
    rest: Seq<char>,
)
    requires
        is_drive_letter(letter),
        rest.len() == 0 || !windows_sep(rest[0]),
    ensures
        platform == Platform::Unix ==> absolute_of(platform, cwd, drive_dirs, s) == joined_path(
            platform,
            cwd,
            s,
        ),
        prefix_len(platform, s) == 0 ==> absolute_of(platform, cwd, drive_dirs, s) == joined_path(
            platform,
            cwd,
            s,
        ),
        ({
            let path = absolute_of(
                Platform::Windows,
                cwd,
                drive_dirs,
                seq![letter, ':'] + rest,
            );
            &&& on_drive(Platform::Windows, cwd, letter) && windows_sep(cwd.last()) ==> path == cwd
                + rest
            &&& on_drive(Platform::Windows, cwd, letter) && !windows_sep(cwd.last()) ==> path == cwd
                + seq!['\\'] + rest
            &&& !on_drive(Platform::Windows, cwd, letter) && drive_dirs.len() == 0 ==> path == seq![
                letter,
                ':',
                '\\',
            ] + rest
            &&& !on_drive(Platform::Windows, cwd, letter) && drive_dirs.len() > 0 && on_drive(
                Platform::Windows,
                drive_dirs[0],
                letter,
            ) && !windows_sep(drive_dirs[0].last()) ==> path == drive_dirs[0] + seq!['\\'] + rest
        }),
{
    let p = Platform::Windows;
    let t = seq![letter, ':'] + rest;
    assert(t[0] == letter && t[1] == ':');
    if rest.len() > 0 {
        assert(t[2] == rest[0]);
    }
    assert(t.skip(2) =~= rest);
    assert(is_drive_relative(p, t));
    assert(main_sep(p) =~= seq!['\\']);
}

/// Whether a directory is on a drive does not depend on the case of the letter, and takes a
/// root behind the drive.
pub proof fn law_on_drive(a: char, b: char, rest: Seq<char>)
    requires
        is_drive_letter(a),
        is_drive_letter(b),
    ensures
        on_drive(Platform::Windows, seq![a, ':'] + rest, b) <==> (a == b || a as int == b as int + 32
            || b as int == a as int + 32) && rest.len() > 0 && windows_sep(rest[0]),
{
    let s = seq![a, ':'] + rest;
    assert(s[0] == a && s[1] == ':');
    if rest.len() > 0 {
        assert(s[2] == rest[0]);
    }
}

/// The directories of drives are tried in turn.
pub proof fn law_drive_directories(
    dirs: Seq<Seq<char>>,
    letter: char,
    i: int,
)
    requires
        0 <= i < dirs.len(),
        on_drive(Platform::Windows, dirs[i], letter),
        forall|j: int| 0 <= j < i ==> !on_drive(Platform::Windows, #[trigger] dirs[j], letter),
    ensures
        drive_dir(Platform::Windows, dirs, letter, 0) == dirs[i],
{
    lemma_drive_scan(dirs, letter, 0, i);
}

proof fn lemma_drive_scan(dirs: Seq<Seq<char>>, letter: char, k: int, i: int)
    requires
        0 <= k <= i < dirs.len(),
        on_drive(Platform::Windows, dirs[i], letter),
        forall|j: int| 0 <= j < i ==> !on_drive(Platform::Windows, #[trigger] dirs[j], letter),
    ensures
        drive_dir(Platform::Windows, dirs, letter, k) == dirs[i],
    decreases i - k,
{
    if k < i {
        assert(!on_drive(Platform::Windows, dirs[k], letter));
        lemma_drive_scan(dirs, letter, k + 1, i);
    }
}

/// What the path functions return is what the laws speak of.
pub proof fn law_path_functions(
    platform: Platform,
    dir: &str,
    path: &str,
    joined_text: String,
    parent: Option<String>,
    absolute: bool,
    drive_dirs: &Vec<String>,
    located: String,
)
    requires
        call_ensures(join_path, (platform, dir, path), joined_text),
        call_ensures(parent_path, (platform, path), parent),
        call_ensures(is_absolute_path, (platform, path), absolute),
        call_ensures(absolute_path, (platform, dir, drive_dirs, path), located),
    ensures
        joined_text@ == joined_path(platform, dir@, path@),
        parent is Some <==> parent_of(platform, path@) is Some,
        parent is Some ==> parent->0@ == parent_of(platform, path@)->0,
        absolute == is_absolute(platform, path@),
        platform == Platform::Unix ==> (absolute <==> path@.len() > 0 && path@[0] == '/'),
        located@ == absolute_of(platform, dir@, drive_dirs.deep_view(), path@),
{
}

/// A path has a parent wherever there is a name to take off: where it has none, only
/// separators and lone dots follow its prefix, its root and a dot at its beginning.
pub proof fn law_no_parent_means_no_name(platform: Platform, s: Seq<char>)
    requires
        parent_of(platform, s) is None,
    ensures
        only_filler(platform, is_verbatim(platform, s), s.skip(head_len(platform, s))),
{
    let verbatim = is_verbatim(platform, s);
    let low = head_len(platform, s);
    let len = s.len() as int;
    lemma_head_len(platform, s);
    lemma_tidied(platform, verbatim, s, low, len);
    let t = s.skip(low);
    assert forall|i: int| 0 <= i < t.len() implies #[trigger] is_filler(platform, verbatim, t, i) by {
        assert(t[i] == s[low + i]);
        if i + 1 < t.len() {
            assert(t[i + 1] == s[low + i + 1]);
        }
        if i > 0 {
            assert(t[i - 1] == s[low + i - 1]);
        }
        assert(stands_alone(platform, verbatim, s, low, len, low + i));
    }
}

/// What stands before the components that can be taken off: the prefix, a root, and a dot
/// at the beginning of a path without one.
pub proof fn law_head(platform: Platform, s: Seq<char>)
    ensures
        is_rooted(platform, s) <==> prefix_len(platform, s) < s.len() && is_sep(
            platform,
            s[prefix_len(platform, s)],
        ),
        is_rooted(platform, s) ==> root_len(platform, s) == prefix_len(platform, s) + 1,
        !is_rooted(platform, s) ==> root_len(platform, s) == prefix_len(platform, s),
        head_len(platform, s) == root_len(platform, s) || head_len(platform, s) == root_len(
            platform,
            s,
        ) + 1,
        head_len(platform, s) == root_len(platform, s) + 1 ==> !is_rooted(platform, s)
            && s[prefix_len(platform, s)] == '.' && (prefix_len(platform, s) + 1 == s.len()
            || is_sep(platform, s[prefix_len(platform, s) + 1])),
        s.len() > 0 && prefix_len(platform, s) == 0 && s[0] == '.' && (s.len() == 1 || is_sep(
            platform,
            s[1],
        )) ==> head_len(platform, s) == 1,
{
}

} // verus!
