//! The three platform descriptors: marker icon, path separator, home and
//! drive directory conventions, and the names of the seven well-known
//! subdirectories, together with the prefix-matching rules over them.

use vstd::prelude::*;

use crate::text::chars_vec;
use crate::text::is_alpha;

verus! {

/// One operating-system path convention.
#[derive(Clone, Copy, PartialEq, Eq, Structural)]
pub enum Platform {
    Mac,
    Linux,
    Windows,
}

/// The nine recognized well-known path roots.
#[derive(Clone, Copy, PartialEq, Eq, Structural)]
pub enum RootDir {
    Home,
    Music,
    AppData,
    Desktop,
    Documents,
    Downloads,
    Pictures,
    Videos,
    Drive,
}

/// The single codepoint that identifies the platform in encoded output.
pub open spec fn marker_icon(p: Platform) -> char {
    match p {
        Platform::Mac => '\u{1F34E}',
        Platform::Linux => '\u{1F427}',
        Platform::Windows => '\u{1F4A0}',
    }
}

/// The platform's native path separator.
pub open spec fn sep_char(p: Platform) -> char {
    match p {
        Platform::Windows => '\\',
        _ => '/',
    }
}

/// The icon that identifies a well-known root in encoded output.
pub open spec fn root_icon(d: RootDir) -> char {
    match d {
        RootDir::Home => '\u{1F3E0}',
        RootDir::Music => '\u{1F3B5}',
        RootDir::AppData => '\u{1F4BE}',
        RootDir::Desktop => '\u{1F51D}',
        RootDir::Documents => '\u{1F4C4}',
        RootDir::Downloads => '\u{23EC}',
        RootDir::Pictures => '\u{1F3A8}',
        RootDir::Videos => '\u{1F3A5}',
        RootDir::Drive => '\u{1F95E}',
    }
}

/// The platform that a marker icon stands for, if any.
pub open spec fn marker_platform(c: char) -> Option<Platform> {
    if c == '\u{1F34E}' {
        Some(Platform::Mac)
    } else if c == '\u{1F427}' {
        Some(Platform::Linux)
    } else if c == '\u{1F4A0}' {
        Some(Platform::Windows)
    } else {
        None
    }
}

/// The well-known root that an icon stands for, if any.
pub open spec fn icon_root(c: char) -> Option<RootDir> {
    if c == '\u{1F3E0}' {
        Some(RootDir::Home)
    } else if c == '\u{1F3B5}' {
        Some(RootDir::Music)
    } else if c == '\u{1F4BE}' {
        Some(RootDir::AppData)
    } else if c == '\u{1F51D}' {
        Some(RootDir::Desktop)
    } else if c == '\u{1F4C4}' {
        Some(RootDir::Documents)
    } else if c == '\u{23EC}' {
        Some(RootDir::Downloads)
    } else if c == '\u{1F3A8}' {
        Some(RootDir::Pictures)
    } else if c == '\u{1F3A5}' {
        Some(RootDir::Videos)
    } else if c == '\u{1F95E}' {
        Some(RootDir::Drive)
    } else {
        None
    }
}

/// The roots that carry a subdirectory name under the home directory.
pub open spec fn is_subdir(d: RootDir) -> bool {
    d != RootDir::Home && d != RootDir::Drive
}

/// The native prefix of the platform's home directory convention.
pub open spec fn home_prefix(p: Platform) -> Seq<char> {
    match p {
        Platform::Mac => "/Users/"@,
        Platform::Linux => "/home/"@,
        Platform::Windows => "C:\\Users\\"@,
    }
}

/// The native prefix of the drive convention for the two platforms that
/// mount volumes under a directory.
pub open spec fn drive_prefix(p: Platform) -> Seq<char>
    recommends
        p != Platform::Windows,
{
    match p {
        Platform::Linux => "/media/"@,
        _ => "/Volumes/"@,
    }
}

/// The platform's home directory for the given user name.
pub open spec fn home_dir(p: Platform, user: Seq<char>) -> Seq<char> {
    home_prefix(p) + user
}

/// The platform's drive or volume directory for the given volume name.
pub open spec fn drive_dir(p: Platform, volume: Seq<char>) -> Seq<char> {
    if p == Platform::Windows {
        volume + seq![':']
    } else {
        drive_prefix(p) + volume
    }
}

/// The literal name of a well-known subdirectory under the home directory.
pub open spec fn subdir_name(p: Platform, d: RootDir) -> Seq<char>
    recommends
        is_subdir(d),
{
    match d {
        RootDir::Music => "Music"@,
        RootDir::AppData => match p {
            Platform::Mac => "Library/Application Support"@,
            Platform::Linux => ".local/share"@,
            Platform::Windows => "AppData\\Local"@,
        },
        RootDir::Desktop => "Desktop"@,
        RootDir::Documents => "Documents"@,
        RootDir::Downloads => "Downloads"@,
        RootDir::Pictures => "Pictures"@,
        RootDir::Videos => "Videos"@,
        _ => Seq::empty(),
    }
}

/// The length of the longest separator-free prefix of `s`.
pub open spec fn sep_free_len(s: Seq<char>, sep: char) -> int
    decreases s.len(),
{
    if s.len() == 0 || s[0] == sep {
        0
    } else {
        1 + sep_free_len(s.skip(1), sep)
    }
}

/// Matches `pre` followed by a nonempty separator-free component that ends
/// at a separator or at the end of input; yields the component and the
/// remainder (which is empty or starts with the separator).
pub open spec fn match_prefixed(pre: Seq<char>, sep: char, s: Seq<char>) -> Option<
    (Seq<char>, Seq<char>),
> {
    if pre.is_prefix_of(s) {
        let rest = s.skip(pre.len() as int);
        let n = sep_free_len(rest, sep);
        if n > 0 {
            Some((rest.take(n), rest.skip(n)))
        } else {
            None
        }
    } else {
        None
    }
}

/// Recognizes the platform's home directory convention at the start of a
/// native path, extracting the user name.
pub open spec fn match_home(p: Platform, s: Seq<char>) -> Option<(Seq<char>, Seq<char>)> {
    match_prefixed(home_prefix(p), sep_char(p), s)
}

/// Recognizes the platform's drive convention at the start of a native
/// path, extracting the volume name.
pub open spec fn match_drive(p: Platform, s: Seq<char>) -> Option<(Seq<char>, Seq<char>)> {
    if p == Platform::Windows {
        if s.len() >= 2 && is_alpha(s[0]) && s[1] == ':' {
            Some((seq![s[0]], s.skip(2)))
        } else {
            None
        }
    } else {
        match_prefixed(drive_prefix(p), sep_char(p), s)
    }
}

/// A volume name the platform's drive convention can express: nonempty and
/// separator-free, and on the single-letter drive convention one character
/// with the Unicode `Alphabetic` property.
pub open spec fn valid_volume(p: Platform, v: Seq<char>) -> bool {
    v.len() > 0 && (forall|i: int| 0 <= i < v.len() ==> v[i] != sep_char(p)) && (p
        == Platform::Windows ==> v.len() == 1 && is_alpha(v[0]))
}

/// Whether the platform recognizes the start of the path, by home or by
/// drive convention.
pub open spec fn platform_matches(p: Platform, s: Seq<char>) -> bool {
    match_home(p, s) is Some || match_drive(p, s) is Some
}

/// The first platform, in fixed priority order, whose conventions match the
/// start of the path.
pub open spec fn sniff_platform(s: Seq<char>) -> Option<Platform> {
    if platform_matches(Platform::Mac, s) {
        Some(Platform::Mac)
    } else if platform_matches(Platform::Linux, s) {
        Some(Platform::Linux)
    } else if platform_matches(Platform::Windows, s) {
        Some(Platform::Windows)
    } else {
        None
    }
}

/// Whether `rest` begins with a separator, the given subdirectory's name,
/// and then a separator or the end of input.
pub open spec fn match_subdir_at(p: Platform, rest: Seq<char>, d: RootDir) -> bool
    recommends
        is_subdir(d),
{
    let name = subdir_name(p, d);
    rest.len() >= 1 + name.len() && rest[0] == sep_char(p) && name.is_prefix_of(rest.skip(1)) && (
    rest.len() == 1 + name.len() || rest[1 + name.len() as int] == sep_char(p))
}

/// The first well-known subdirectory, in fixed priority order, whose form
/// follows the home directory in `rest`.
pub open spec fn first_subdir(p: Platform, rest: Seq<char>) -> Option<RootDir> {
    if match_subdir_at(p, rest, RootDir::Music) {
        Some(RootDir::Music)
    } else if match_subdir_at(p, rest, RootDir::AppData) {
        Some(RootDir::AppData)
    } else if match_subdir_at(p, rest, RootDir::Desktop) {
        Some(RootDir::Desktop)
    } else if match_subdir_at(p, rest, RootDir::Documents) {
        Some(RootDir::Documents)
    } else if match_subdir_at(p, rest, RootDir::Downloads) {
        Some(RootDir::Downloads)
    } else if match_subdir_at(p, rest, RootDir::Pictures) {
        Some(RootDir::Pictures)
    } else if match_subdir_at(p, rest, RootDir::Videos) {
        Some(RootDir::Videos)
    } else {
        None
    }
}

/// A prefixed component match recognizes exactly a constructed input: the
/// prefix, then a nonempty separator-free component, then a remainder that
/// is empty or starts with the separator.
pub proof fn lemma_match_prefixed_constructed(
    pre: Seq<char>,
    sep: char,
    comp: Seq<char>,
    tail: Seq<char>,
)
    requires
        comp.len() > 0,
        forall|i: int| 0 <= i < comp.len() ==> comp[i] != sep,
        tail.len() > 0 ==> tail[0] == sep,
    ensures
        match_prefixed(pre, sep, pre + comp + tail) == Some((comp, tail)),
{
    let s = pre + comp + tail;
    assert(pre =~= s.subrange(0, pre.len() as int));
    let rest = s.skip(pre.len() as int);
    assert(rest =~= comp + tail);
    assert forall|k: int| 0 <= k < comp.len() implies rest[k] != sep by {
        assert(rest[k] == comp[k]);
    }
    if comp.len() < rest.len() {
        assert(rest[comp.len() as int] == tail[0]);
    }
    lemma_sep_free_len(rest, sep, comp.len() as int);
    assert(rest.take(comp.len() as int) =~= comp);
    assert(rest.skip(comp.len() as int) =~= tail);
}

/// A path that starts with one platform's home prefix is recognized by no
/// earlier platform in the priority order, so sniffing picks that platform.
pub proof fn lemma_sniff_home(p: Platform, s: Seq<char>)
    requires
        match_home(p, s) is Some,
    ensures
        sniff_platform(s) == Some(p),
{
    reveal_strlit("/Users/");
    reveal_strlit("/home/");
    reveal_strlit("C:\\Users\\");
    reveal_strlit("/Volumes/");
    reveal_strlit("/media/");
    assert(home_prefix(p).is_prefix_of(s));
    match p {
        Platform::Mac => {
        },
        Platform::Linux => {
            assert(s.subrange(0, 6)[1] == s[1]);
            assert(s[1] == 'h');
            if match_home(Platform::Mac, s) is Some {
                assert(s.subrange(0, 7)[1] == s[1]);
                assert(false);
            }
            if match_drive(Platform::Mac, s) is Some {
                assert(s.subrange(0, 9)[1] == s[1]);
                assert(false);
            }
        },
        Platform::Windows => {
            assert(s.subrange(0, 9)[0] == s[0]);
            assert(s[0] == 'C');
            if match_home(Platform::Mac, s) is Some {
                assert(s.subrange(0, 7)[0] == s[0]);
                assert(false);
            }
            if match_drive(Platform::Mac, s) is Some {
                assert(s.subrange(0, 9)[0] == s[0]);
                assert(false);
            }
            if match_home(Platform::Linux, s) is Some {
                assert(s.subrange(0, 6)[0] == s[0]);
                assert(false);
            }
            if match_drive(Platform::Linux, s) is Some {
                assert(s.subrange(0, 7)[0] == s[0]);
                assert(false);
            }
        },
    }
}

/// A path that starts with one platform's drive convention, and does not
/// match that platform's home convention, is recognized by no earlier
/// platform, so sniffing picks that platform.
pub proof fn lemma_sniff_drive(p: Platform, s: Seq<char>)
    requires
        match_drive(p, s) is Some,
        match_home(p, s) is None,
    ensures
        sniff_platform(s) == Some(p),
{
    reveal_strlit("/Users/");
    reveal_strlit("/home/");
    reveal_strlit("C:\\Users\\");
    reveal_strlit("/Volumes/");
    reveal_strlit("/media/");
    match p {
        Platform::Mac => {
        },
        Platform::Linux => {
            assert(drive_prefix(Platform::Linux).is_prefix_of(s));
            assert(s.subrange(0, 7)[1] == s[1]);
            assert(s[1] == 'm');
            if match_home(Platform::Mac, s) is Some {
                assert(s.subrange(0, 7)[1] == s[1]);
                assert(false);
            }
            if match_drive(Platform::Mac, s) is Some {
                assert(s.subrange(0, 9)[1] == s[1]);
                assert(false);
            }
        },
        Platform::Windows => {
            assert(s.len() >= 2 && s[1] == ':');
            if match_home(Platform::Mac, s) is Some {
                assert(s.subrange(0, 7)[1] == s[1]);
                assert(false);
            }
            if match_drive(Platform::Mac, s) is Some {
                assert(s.subrange(0, 9)[1] == s[1]);
                assert(false);
            }
            if match_home(Platform::Linux, s) is Some {
                assert(s.subrange(0, 6)[1] == s[1]);
                assert(false);
            }
            if match_drive(Platform::Linux, s) is Some {
                assert(s.subrange(0, 7)[1] == s[1]);
                assert(false);
            }
        },
    }
}

/// Executable form of `marker_icon`.
pub fn marker_icon_exec(p: Platform) -> (c: char)
    ensures
        c == marker_icon(p),
{
    match p {
        Platform::Mac => '\u{1F34E}',
        Platform::Linux => '\u{1F427}',
        Platform::Windows => '\u{1F4A0}',
    }
}

/// Executable form of `sep_char`.
pub fn sep_char_exec(p: Platform) -> (c: char)
    ensures
        c == sep_char(p),
{
    match p {
        Platform::Windows => '\\',
        _ => '/',
    }
}

/// Executable form of `root_icon`.
pub fn root_icon_exec(d: RootDir) -> (c: char)
    ensures
        c == root_icon(d),
{
    match d {
        RootDir::Home => '\u{1F3E0}',
        RootDir::Music => '\u{1F3B5}',
        RootDir::AppData => '\u{1F4BE}',
        RootDir::Desktop => '\u{1F51D}',
        RootDir::Documents => '\u{1F4C4}',
        RootDir::Downloads => '\u{23EC}',
        RootDir::Pictures => '\u{1F3A8}',
        RootDir::Videos => '\u{1F3A5}',
        RootDir::Drive => '\u{1F95E}',
    }
}

/// Executable form of `marker_platform`.
pub fn marker_platform_exec(c: char) -> (r: Option<Platform>)
    ensures
        r == marker_platform(c),
{
    if c == '\u{1F34E}' {
        Some(Platform::Mac)
    } else if c == '\u{1F427}' {
        Some(Platform::Linux)
    } else if c == '\u{1F4A0}' {
        Some(Platform::Windows)
    } else {
        None
    }
}

/// Executable form of `icon_root`.
pub fn icon_root_exec(c: char) -> (r: Option<RootDir>)
    ensures
        r == icon_root(c),
{
    if c == '\u{1F3E0}' {
        Some(RootDir::Home)
    } else if c == '\u{1F3B5}' {
        Some(RootDir::Music)
    } else if c == '\u{1F4BE}' {
        Some(RootDir::AppData)
    } else if c == '\u{1F51D}' {
        Some(RootDir::Desktop)
    } else if c == '\u{1F4C4}' {
        Some(RootDir::Documents)
    } else if c == '\u{23EC}' {
        Some(RootDir::Downloads)
    } else if c == '\u{1F3A8}' {
        Some(RootDir::Pictures)
    } else if c == '\u{1F3A5}' {
        Some(RootDir::Videos)
    } else if c == '\u{1F95E}' {
        Some(RootDir::Drive)
    } else {
        None
    }
}

/// The platform's home prefix as a character vector.
pub fn home_prefix_vec(p: Platform) -> (v: Vec<char>)
    ensures
        v@ == home_prefix(p),
{
    match p {
        Platform::Mac => chars_vec("/Users/"),
        Platform::Linux => chars_vec("/home/"),
        Platform::Windows => chars_vec("C:\\Users\\"),
    }
}

/// The platform's drive prefix as a character vector.
pub fn drive_prefix_vec(p: Platform) -> (v: Vec<char>)
    requires
        p != Platform::Windows,
    ensures
        v@ == drive_prefix(p),
{
    match p {
        Platform::Linux => chars_vec("/media/"),
        _ => chars_vec("/Volumes/"),
    }
}

/// The subdirectory's literal name as a character vector.
pub fn subdir_name_vec(p: Platform, d: RootDir) -> (v: Vec<char>)
    requires
        is_subdir(d),
    ensures
        v@ == subdir_name(p, d),
{
    match d {
        RootDir::Music => chars_vec("Music"),
        RootDir::AppData => match p {
            Platform::Mac => chars_vec("Library/Application Support"),
            Platform::Linux => chars_vec(".local/share"),
            Platform::Windows => chars_vec("AppData\\Local"),
        },
        RootDir::Desktop => chars_vec("Desktop"),
        RootDir::Documents => chars_vec("Documents"),
        RootDir::Downloads => chars_vec("Downloads"),
        RootDir::Pictures => chars_vec("Pictures"),
        RootDir::Videos => chars_vec("Videos"),
        _ => Vec::new(),
    }
}

/// Whether `pat` occurs in `s` starting at position `from`.
pub fn has_prefix_from(s: &Vec<char>, from: usize, pat: &Vec<char>) -> (b: bool)
    requires
        from <= s@.len(),
    ensures
        b == pat@.is_prefix_of(s@.skip(from as int)),
{
    if s.len() - from < pat.len() {
        proof {
            assert(s@.skip(from as int).len() < pat@.len());
        }
        return false;
    }
    let n: usize = s.len();
    let mut j: usize = 0;
    while j < pat.len()
        invariant
            j <= pat@.len(),
            n == s@.len(),
            from + pat@.len() <= n,
            forall|k: int| 0 <= k < j ==> s@[from + k] == pat@[k],
        decreases pat@.len() - j,
    {
        if s[from + j] != pat[j] {
            proof {
                let rest = s@.skip(from as int);
                assert(rest[j as int] == s@[from + j]);
                assert(rest.subrange(0, pat@.len() as int)[j as int] != pat@[j as int]);
            }
            return false;
        }
        j = j + 1;
    }
    proof {
        let rest = s@.skip(from as int);
        assert forall|k: int| 0 <= k < pat@.len() implies rest.subrange(0, pat@.len() as int)[k]
            == pat@[k] by {
            assert(rest[k] == s@[from + k]);
        }
        assert(pat@ =~= rest.subrange(0, pat@.len() as int));
    }
    true
}

/// `sep_free_len` is the position of the first separator, which the scan
/// below finds.
proof fn lemma_sep_free_len(s: Seq<char>, sep: char, n: int)
    requires
        0 <= n <= s.len(),
        forall|k: int| 0 <= k < n ==> s[k] != sep,
        n < s.len() ==> s[n] == sep,
    ensures
        sep_free_len(s, sep) == n,
    decreases n,
{
    if n == 0 {
    } else {
        assert(s[0] != sep);
        lemma_sep_free_len(s.skip(1), sep, n - 1);
    }
}

/// Finds the first separator at or after `from`, or the end of input.
fn scan_sep(s: &Vec<char>, from: usize, sep: char) -> (j: usize)
    requires
        from <= s@.len(),
    ensures
        from <= j <= s@.len(),
        forall|k: int| from <= k < j ==> s@[k] != sep,
        j < s@.len() ==> s@[j as int] == sep,
{
    let mut j: usize = from;
    while j < s.len()
        invariant
            from <= j <= s@.len(),
            forall|k: int| from <= k < j ==> s@[k] != sep,
        decreases s@.len() - j,
    {
        if s[j] == sep {
            return j;
        }
        j = j + 1;
    }
    j
}

/// Executable match of `pre` plus a nonempty separator-free component:
/// yields the component and the position of the remainder.
fn match_prefixed_exec(s: &Vec<char>, pre: &Vec<char>, sep: char) -> (r: Option<(Vec<char>, usize)>)
    ensures
        match r {
            Some(m) => {
                &&& m.1 <= s@.len()
                &&& match_prefixed(pre@, sep, s@) == Some((m.0@, s@.skip(m.1 as int)))
            },
            None => match_prefixed(pre@, sep, s@) is None,
        },
{
    if !has_prefix_from(s, 0, pre) {
        proof {
            assert(s@.skip(0) =~= s@);
        }
        return None;
    }
    proof {
        assert(s@.skip(0) =~= s@);
        assert(pre@.is_prefix_of(s@));
    }
    let start: usize = pre.len();
    let j = scan_sep(s, start, sep);
    proof {
        let rest = s@.skip(start as int);
        assert forall|k: int| 0 <= k < j - start implies rest[k] != sep by {
            assert(rest[k] == s@[start + k]);
        }
        if j < s@.len() {
            assert(rest[j - start] == s@[j as int]);
        }
        lemma_sep_free_len(rest, sep, j - start);
    }
    if j == start {
        return None;
    }
    let comp = crate::text::copy_range(s, start, j);
    proof {
        let rest = s@.skip(start as int);
        assert(comp@ =~= rest.take(j - start));
        assert(s@.skip(j as int) =~= rest.skip(j - start));
    }
    Some((comp, j))
}

/// Executable form of `match_home`.
pub fn match_home_exec(s: &Vec<char>, p: Platform) -> (r: Option<(Vec<char>, usize)>)
    ensures
        match r {
            Some(m) => {
                &&& m.1 <= s@.len()
                &&& match_home(p, s@) == Some((m.0@, s@.skip(m.1 as int)))
            },
            None => match_home(p, s@) is None,
        },
{
    let pre = home_prefix_vec(p);
    let sep = sep_char_exec(p);
    match_prefixed_exec(s, &pre, sep)
}

/// Executable form of `match_drive`.
pub fn match_drive_exec(s: &Vec<char>, p: Platform) -> (r: Option<(Vec<char>, usize)>)
    ensures
        match r {
            Some(m) => {
                &&& m.1 <= s@.len()
                &&& match_drive(p, s@) == Some((m.0@, s@.skip(m.1 as int)))
            },
            None => match_drive(p, s@) is None,
        },
{
    match p {
        Platform::Windows => {
            if s.len() >= 2 && s[0].is_alphabetic() && s[1] == ':' {
                let mut v: Vec<char> = Vec::new();
                v.push(s[0]);
                proof {
                    assert(v@ =~= seq![s@[0]]);
                }
                Some((v, 2))
            } else {
                None
            }
        },
        _ => {
            let pre = drive_prefix_vec(p);
            let sep = sep_char_exec(p);
            match_prefixed_exec(s, &pre, sep)
        },
    }
}

/// Executable form of `sniff_platform`.
pub fn sniff_platform_exec(s: &Vec<char>) -> (r: Option<Platform>)
    ensures
        r == sniff_platform(s@),
{
    if match_home_exec(s, Platform::Mac).is_some() || match_drive_exec(
        s,
        Platform::Mac,
    ).is_some() {
        Some(Platform::Mac)
    } else if match_home_exec(s, Platform::Linux).is_some() || match_drive_exec(
        s,
        Platform::Linux,
    ).is_some() {
        Some(Platform::Linux)
    } else if match_home_exec(s, Platform::Windows).is_some() || match_drive_exec(
        s,
        Platform::Windows,
    ).is_some() {
        Some(Platform::Windows)
    } else {
        None
    }
}

/// Executable test for one subdirectory form at position `idx`; on success
/// yields the position just past the consumed separator and name.
fn match_subdir_at_exec(s: &Vec<char>, idx: usize, p: Platform, d: RootDir) -> (r: Option<usize>)
    requires
        idx <= s@.len(),
        is_subdir(d),
    ensures
        match r {
            Some(j) => {
                &&& match_subdir_at(p, s@.skip(idx as int), d)
                &&& idx < j <= s@.len()
                &&& j == idx + 1 + subdir_name(p, d).len()
            },
            None => !match_subdir_at(p, s@.skip(idx as int), d),
        },
{
    let ghost rest = s@.skip(idx as int);
    let name = subdir_name_vec(p, d);
    let sep = sep_char_exec(p);
    if idx >= s.len() || s[idx] != sep {
        return None;
    }
    proof {
        assert(rest[0] == s@[idx as int]);
    }
    if !has_prefix_from(s, idx + 1, &name) {
        proof {
            assert(s@.skip(idx + 1) =~= rest.skip(1));
        }
        return None;
    }
    proof {
        assert(s@.skip(idx + 1) =~= rest.skip(1));
        assert(name@.is_prefix_of(rest.skip(1)));
    }
    let j: usize = idx + 1 + name.len();
    if j < s.len() && s[j] != sep {
        proof {
            assert(rest[1 + name@.len() as int] == s@[j as int]);
        }
        return None;
    }
    proof {
        if j < s@.len() {
            assert(rest[1 + name@.len() as int] == s@[j as int]);
        } else {
            assert(rest.len() == 1 + name@.len());
        }
    }
    Some(j)
}

/// Executable form of `first_subdir`: yields the matched root and the
/// position just past the consumed separator and name.
pub fn first_subdir_exec(s: &Vec<char>, idx: usize, p: Platform) -> (r: Option<(RootDir, usize)>)
    requires
        idx <= s@.len(),
    ensures
        match r {
            Some(m) => {
                &&& first_subdir(p, s@.skip(idx as int)) == Some(m.0)
                &&& is_subdir(m.0)
                &&& idx < m.1 <= s@.len()
                &&& m.1 == idx + 1 + subdir_name(p, m.0).len()
            },
            None => first_subdir(p, s@.skip(idx as int)) is None,
        },
{
    if let Some(j) = match_subdir_at_exec(s, idx, p, RootDir::Music) {
        return Some((RootDir::Music, j));
    }
    if let Some(j) = match_subdir_at_exec(s, idx, p, RootDir::AppData) {
        return Some((RootDir::AppData, j));
    }
    if let Some(j) = match_subdir_at_exec(s, idx, p, RootDir::Desktop) {
        return Some((RootDir::Desktop, j));
    }
    if let Some(j) = match_subdir_at_exec(s, idx, p, RootDir::Documents) {
        return Some((RootDir::Documents, j));
    }
    if let Some(j) = match_subdir_at_exec(s, idx, p, RootDir::Downloads) {
        return Some((RootDir::Downloads, j));
    }
    if let Some(j) = match_subdir_at_exec(s, idx, p, RootDir::Pictures) {
        return Some((RootDir::Pictures, j));
    }
    if let Some(j) = match_subdir_at_exec(s, idx, p, RootDir::Videos) {
        return Some((RootDir::Videos, j));
    }
    None
}

} // verus!
