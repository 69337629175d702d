//! The encoder and decoder: platform sniffing, prefix rewriting and
//! character escaping in the encode direction; marker parsing, prefix
//! reconstruction and unescaping in the decode direction.

use vstd::prelude::*;
use vstd::slice::slice_to_vec;
use vstd::utf8::decode_utf8;
use vstd::utf8::valid_utf8;

use crate::escape::component_split;
use crate::escape::escape_chars_from;
use crate::escape::escape_text;
use crate::escape::unescape_chars_from;
use crate::escape::unescape_text;
use crate::platform::first_subdir;
use crate::platform::first_subdir_exec;
use crate::platform::drive_dir;
use crate::platform::drive_prefix_vec;
use crate::platform::home_dir;
use crate::platform::home_prefix;
use crate::platform::home_prefix_vec;
use crate::platform::icon_root;
use crate::platform::icon_root_exec;
use crate::platform::marker_icon;
use crate::platform::marker_icon_exec;
use crate::platform::marker_platform;
use crate::platform::marker_platform_exec;
use crate::platform::match_drive;
use crate::platform::match_drive_exec;
use crate::platform::match_home;
use crate::platform::match_home_exec;
use crate::platform::root_icon;
use crate::platform::root_icon_exec;
use crate::platform::sep_char;
use crate::platform::sep_char_exec;
use crate::platform::sniff_platform;
use crate::platform::sniff_platform_exec;
use crate::platform::subdir_name;
use crate::platform::subdir_name_vec;
use crate::platform::is_subdir;
use crate::platform::Platform;
use crate::platform::RootDir;
use crate::text::append_copied;
use crate::text::chars_to_string;
use crate::text::chars_vec;

verus! {

/// The error values that encoding and decoding can return.
#[derive(Debug, PartialEq, Eq)]
pub enum Error {
    /// The supplied bytes are not valid text; carries the raw byte
    /// sequence.
    CouldntEncodeToUtf8(Vec<u8>),
    /// A platform marker icon was present but what follows matches none of
    /// the nine well-known root forms; carries the unconsumed remainder.
    ParseError(String),
    /// The decode grammar consumed a rule prefix but ran out of input
    /// before a required terminator.
    IncompleteStream,
}

/// The icon form of a consumed prefix: the platform marker, the root icon
/// and the escaped user or volume name.
pub open spec fn encode_prefix(p: Platform, d: RootDir, name: Seq<char>) -> Seq<char> {
    seq![marker_icon(p), root_icon(d)] + escape_text(name)
}

/// What encoding produces for a native path: the recognized well-known
/// prefix rendered in icon form, followed by the escaped remainder.
pub open spec fn to_filename_spec(s: Seq<char>) -> Seq<char> {
    match sniff_platform(s) {
        None => escape_text(s),
        Some(p) => match match_home(p, s) {
            Some(m) => match first_subdir(p, m.1) {
                Some(d) => encode_prefix(p, d, m.0) + escape_text(
                    m.1.skip(1 + subdir_name(p, d).len() as int),
                ),
                None => encode_prefix(p, RootDir::Home, m.0) + escape_text(m.1),
            },
            None => match match_drive(p, s) {
                Some(m) => encode_prefix(p, RootDir::Drive, m.0) + escape_text(m.1),
                None => escape_text(s),
            },
        },
    }
}

/// The native prefix that a well-known root and its decoded name stand for.
pub open spec fn render_root(p: Platform, d: RootDir, name: Seq<char>) -> Seq<char> {
    match d {
        RootDir::Home => home_dir(p, name),
        RootDir::Drive => drive_dir(p, name),
        _ => home_dir(p, name) + seq![sep_char(p)] + subdir_name(p, d),
    }
}

/// What decoding produces for an encoded filename: either the reconstructed
/// native path, or, when a platform marker is present but no root form
/// follows, the unconsumed remainder as the error value.
pub open spec fn to_path_spec(s: Seq<char>) -> Result<Seq<char>, Seq<char>> {
    if s.len() == 0 {
        Ok(Seq::empty())
    } else {
        match marker_platform(s[0]) {
            None => Ok(unescape_text(s)),
            Some(p) => {
                let r = s.skip(1);
                if r.len() == 0 {
                    Err(r)
                } else {
                    match icon_root(r[0]) {
                        None => Err(r),
                        Some(d) => {
                            let cs = component_split(r.skip(1), sep_char(p));
                            Ok(render_root(p, d, cs.0) + unescape_text(cs.1))
                        },
                    }
                }
            },
        }
    }
}

/// Decoding inverts an icon-form prefix followed by an escaped remainder:
/// the marker and root icon are recognized, the component decode recovers
/// exactly the name, and the remainder unescapes to the original text.
proof fn lemma_decode_encoded(p: Platform, d: RootDir, user: Seq<char>, tailx: Seq<char>)
    requires
        forall|i: int| 0 <= i < user.len() ==> user[i] != sep_char(p),
        crate::escape::run_safe(user),
        crate::escape::run_safe(tailx),
        tailx.len() > 0 ==> tailx[0] == sep_char(p),
    ensures
        to_path_spec(encode_prefix(p, d, user) + escape_text(tailx)) == Ok::<Seq<char>, Seq<char>>(
            render_root(p, d, user) + tailx,
        ),
{
    let sep = sep_char(p);
    assert(crate::escape::is_escape_target(sep));
    let enc = encode_prefix(p, d, user) + escape_text(tailx);
    let k = escape_text(tailx);
    assert(enc[0] == marker_icon(p));
    assert(marker_platform(marker_icon(p)) == Some(p));
    let r = enc.skip(1);
    assert(r =~= seq![root_icon(d)] + escape_text(user) + k);
    assert(r[0] == root_icon(d));
    assert(icon_root(root_icon(d)) == Some(d));
    assert(r.skip(1) =~= escape_text(user) + k);
    if tailx.len() > 0 {
        crate::escape::lemma_escaped_tail_stops(tailx, sep);
    } else {
        assert(k =~= Seq::<char>::empty());
    }
    if user.len() > 0 && crate::escape::is_escape_target(user.last()) && k.len() > 0 {
        crate::escape::lemma_escape_text_head(tailx);
        assert(k[0] == crate::escape::escape_char(tailx[0])[0]);
        assert(k[0] == crate::escape::escaped_of(sep));
        assert(user.last() != sep);
        crate::escape::lemma_escaped_of_injective(user.last(), sep);
    }
    crate::escape::lemma_component_split_escape(user, k, sep);
    assert(component_split(r.skip(1), sep) == (user, k));
    crate::escape::lemma_unescape_escape(tailx);
    assert(to_path_spec(enc) == Ok::<Seq<char>, Seq<char>>(render_root(p, d, user) + tailx));
}

/// Round trip through a home-directory path: a path built from a
/// platform's home convention, a user name and a trailing rest decodes back
/// to itself after encoding. The user name must be nonempty and
/// separator-free, the rest must be empty or begin with the separator, and
/// both must be run-safe.
pub proof fn lemma_round_trip_home(p: Platform, user: Seq<char>, tail: Seq<char>)
    requires
        user.len() > 0,
        forall|i: int| 0 <= i < user.len() ==> user[i] != sep_char(p),
        crate::escape::run_safe(user),
        crate::escape::run_safe(tail),
        tail.len() > 0 ==> tail[0] == sep_char(p),
    ensures
        to_path_spec(to_filename_spec(home_dir(p, user) + tail)) == Ok::<Seq<char>, Seq<char>>(
            home_dir(p, user) + tail,
        ),
{
    let sep = sep_char(p);
    let path = home_dir(p, user) + tail;
    assert(path =~= home_prefix(p) + user + tail);
    crate::platform::lemma_match_prefixed_constructed(home_prefix(p), sep, user, tail);
    assert(match_home(p, path) == Some((user, tail)));
    crate::platform::lemma_sniff_home(p, path);
    match first_subdir(p, tail) {
        Some(d) => {
            assert(crate::platform::match_subdir_at(p, tail, d));
            let name = subdir_name(p, d);
            let nl: int = name.len() as int;
            let tail2 = tail.skip(1 + nl);
            assert(name =~= tail.skip(1).subrange(0, nl));
            assert(tail =~= seq![sep] + name + tail2);
            assert(to_filename_spec(path) == encode_prefix(p, d, user) + escape_text(tail2));
            if tail2.len() > 0 {
                assert(tail2[0] == tail[1 + nl]);
            }
            crate::escape::lemma_run_safe_skip(tail, 1 + nl);
            lemma_decode_encoded(p, d, user, tail2);
            assert(render_root(p, d, user) + tail2 =~= (home_dir(p, user) + seq![sep] + name)
                + tail2);
            assert((home_dir(p, user) + seq![sep] + name) + tail2 =~= path);
        },
        None => {
            assert(to_filename_spec(path) == encode_prefix(p, RootDir::Home, user) + escape_text(
                tail,
            ));
            lemma_decode_encoded(p, RootDir::Home, user, tail);
            assert(render_root(p, RootDir::Home, user) + tail =~= path);
        },
    }
}

/// Round trip through a drive path: a path built from a platform's drive
/// or volume convention, a valid volume name and a trailing rest decodes
/// back to itself after encoding, provided it does not also match that
/// platform's home convention (which encoding would prefer). The rest must
/// be empty or begin with the separator, and volume and rest must be
/// run-safe.
pub proof fn lemma_round_trip_drive(p: Platform, volume: Seq<char>, tail: Seq<char>)
    requires
        crate::platform::valid_volume(p, volume),
        crate::escape::run_safe(volume),
        crate::escape::run_safe(tail),
        tail.len() > 0 ==> tail[0] == sep_char(p),
        match_home(p, drive_dir(p, volume) + tail) is None,
    ensures
        to_path_spec(to_filename_spec(drive_dir(p, volume) + tail)) == Ok::<Seq<char>, Seq<char>>(
            drive_dir(p, volume) + tail,
        ),
{
    let sep = sep_char(p);
    let path = drive_dir(p, volume) + tail;
    if p == Platform::Windows {
        assert(path[0] == volume[0]);
        assert(path[1] == ':');
        assert(path.len() >= 2);
        assert(seq![path[0]] =~= volume);
        assert(path.skip(2) =~= tail);
        assert(match_drive(p, path) == Some((volume, tail)));
    } else {
        assert(path =~= crate::platform::drive_prefix(p) + volume + tail);
        crate::platform::lemma_match_prefixed_constructed(
            crate::platform::drive_prefix(p),
            sep,
            volume,
            tail,
        );
        assert(match_drive(p, path) == Some((volume, tail)));
    }
    crate::platform::lemma_sniff_drive(p, path);
    assert(to_filename_spec(path) == encode_prefix(p, RootDir::Drive, volume) + escape_text(tail));
    lemma_decode_encoded(p, RootDir::Drive, volume, tail);
    assert(render_root(p, RootDir::Drive, volume) + tail =~= path);
}

/// Decoding the escape of arbitrary plain text never takes the prefix
/// branch: reserved icons are self-escaped, so no platform marker can open
/// escaped output, and the decode is the plain unescape.
pub proof fn lemma_no_accidental_prefix(s: Seq<char>)
    ensures
        escape_text(s).len() > 0 ==> marker_platform(escape_text(s)[0]) is None,
        to_path_spec(escape_text(s)) == Ok::<Seq<char>, Seq<char>>(
            unescape_text(escape_text(s)),
        ),
{
    if s.len() == 0 {
        assert(escape_text(s).len() == 0);
        assert(unescape_text(escape_text(s)) =~= Seq::<char>::empty());
    } else {
        crate::escape::lemma_escape_text_head(s);
        let h = escape_text(s)[0];
        assert(h == crate::escape::escape_char(s[0])[0]);
        if crate::escape::is_escape_target(s[0]) {
            crate::escape::lemma_escaped_of_is_output(s[0]);
            assert(crate::escape::is_escaped_output(h));
        } else if crate::escape::is_escaped_output(s[0]) {
            assert(h == s[0]);
        } else {
            assert(h == s[0]);
        }
        assert(marker_platform(h) is Some ==> crate::escape::is_escape_target(h));
        crate::escape::lemma_alphabets_disjoint(h);
        assert(marker_platform(h) is None);
    }
}

/// Round trip through plain text: when no platform convention matches, a
/// run-safe text encodes to its escaped form and decodes back to itself.
pub proof fn lemma_round_trip_plain(s: Seq<char>)
    requires
        crate::escape::run_safe(s),
        sniff_platform(s) is None,
    ensures
        to_path_spec(to_filename_spec(s)) == Ok::<Seq<char>, Seq<char>>(s),
{
    assert(to_filename_spec(s) == escape_text(s));
    lemma_no_accidental_prefix(s);
    crate::escape::lemma_unescape_escape(s);
}

/// Builds the encoded output for a recognized prefix: marker, root icon,
/// escaped name, then the escaped remainder of `s` from `from` on.
fn build_encoded(p: Platform, d: RootDir, name: &Vec<char>, s: &Vec<char>, from: usize) -> (r: Vec<
    char,
>)
    requires
        from <= s@.len(),
    ensures
        r@ == encode_prefix(p, d, name@) + escape_text(s@.skip(from as int)),
{
    let mut out: Vec<char> = Vec::new();
    out.push(marker_icon_exec(p));
    out.push(root_icon_exec(d));
    let mut en = escape_chars_from(name, 0);
    proof {
        assert(name@.skip(0) =~= name@);
    }
    out.append(&mut en);
    let mut er = escape_chars_from(s, from);
    out.append(&mut er);
    proof {
        assert(out@ =~= (seq![marker_icon(p), root_icon(d)] + escape_text(name@)) + escape_text(
            s@.skip(from as int),
        ));
    }
    out
}

/// Encodes a character sequence held as a vector.
pub fn encode_chars(s: &Vec<char>) -> (r: Vec<char>)
    ensures
        r@ == to_filename_spec(s@),
{
    let sniffed = sniff_platform_exec(s);
    match sniffed {
        None => {
            let r = escape_chars_from(s, 0);
            proof {
                assert(s@.skip(0) =~= s@);
            }
            r
        },
        Some(p) => {
            match match_home_exec(s, p) {
                Some((user, idx)) => {
                    match first_subdir_exec(s, idx, p) {
                        Some((d, j)) => {
                            proof {
                                let rest = s@.skip(idx as int);
                                assert(rest.skip(1 + subdir_name(p, d).len() as int) =~= s@.skip(
                                    j as int,
                                ));
                            }
                            build_encoded(p, d, &user, s, j)
                        },
                        None => build_encoded(p, RootDir::Home, &user, s, idx),
                    }
                },
                None => {
                    match match_drive_exec(s, p) {
                        Some((volume, idx)) => build_encoded(p, RootDir::Drive, &volume, s, idx),
                        None => {
                            proof {
                                assert(false);
                            }
                            Vec::new()
                        },
                    }
                },
            }
        },
    }
}

/// Converts a native path, given as text, into its encoded filename.
pub fn to_filename_from_str(path: &str) -> (r: String)
    ensures
        r@ == to_filename_spec(path@),
{
    let cs = chars_vec(path);
    let out = encode_chars(&cs);
    chars_to_string(&out)
}

/// Rebuilds the native prefix that a decoded root and name stand for.
fn render_root_exec(p: Platform, d: RootDir, name: &Vec<char>) -> (r: Vec<char>)
    ensures
        r@ == render_root(p, d, name@),
{
    match d {
        RootDir::Home => {
            let mut out = home_prefix_vec(p);
            append_copied(&mut out, name);
            out
        },
        RootDir::Drive => {
            match p {
                Platform::Windows => {
                    let mut out: Vec<char> = Vec::new();
                    append_copied(&mut out, name);
                    out.push(':');
                    proof {
                        assert(out@ =~= name@ + seq![':']);
                    }
                    out
                },
                _ => {
                    let mut out = drive_prefix_vec(p);
                    append_copied(&mut out, name);
                    out
                },
            }
        },
        _ => {
            let mut out = home_prefix_vec(p);
            append_copied(&mut out, name);
            out.push(sep_char_exec(p));
            let sub = subdir_name_vec(p, d);
            append_copied(&mut out, &sub);
            proof {
                assert(out@ =~= (home_dir(p, name@) + seq![sep_char(p)]) + subdir_name(p, d));
            }
            out
        },
    }
}

/// Decodes a character sequence held as a vector; the error value is the
/// unconsumed remainder after the platform marker.
pub fn decode_chars(s: &Vec<char>) -> (r: Result<Vec<char>, Vec<char>>)
    ensures
        match r {
            Ok(v) => to_path_spec(s@) == Ok::<Seq<char>, Seq<char>>(v@),
            Err(v) => to_path_spec(s@) == Err::<Seq<char>, Seq<char>>(v@),
        },
{
    if s.len() == 0 {
        return Ok(Vec::new());
    }
    let mp = marker_platform_exec(s[0]);
    match mp {
        None => {
            let out = unescape_chars_from(s, 0);
            proof {
                assert(s@.skip(0) =~= s@);
            }
            Ok(out)
        },
        Some(p) => {
            if s.len() == 1 {
                proof {
                    assert(s@.skip(1) =~= Seq::<char>::empty());
                }
                return Err(Vec::new());
            }
            match icon_root_exec(s[1]) {
                None => {
                    let rem = crate::text::copy_range(s, 1, s.len());
                    proof {
                        assert(s@.subrange(1, s@.len() as int) =~= s@.skip(1));
                        assert(s@.skip(1)[0] == s@[1]);
                    }
                    Err(rem)
                },
                Some(d) => {
                    let sep = sep_char_exec(p);
                    let (name, end) = crate::escape::split_component(s, 2, sep);
                    let mut out = render_root_exec(p, d, &name);
                    let mut tail = unescape_chars_from(s, end);
                    out.append(&mut tail);
                    proof {
                        assert(s@.skip(1).skip(1) =~= s@.skip(2));
                        assert(s@.skip(1)[0] == s@[1]);
                        let cs = component_split(s@.skip(2), sep_char(p));
                        assert(name@ == cs.0);
                        assert(s@.skip(end as int) == cs.1);
                        assert(out@ =~= render_root(p, d, cs.0) + unescape_text(cs.1));
                    }
                    Ok(out)
                },
            }
        },
    }
}

/// Converts an encoded filename, given as text, back into the native path
/// it encodes.
pub fn to_path_from_str(filename: &str) -> (r: Result<String, Error>)
    ensures
        match r {
            Ok(path) => to_path_spec(filename@) == Ok::<Seq<char>, Seq<char>>(path@),
            Err(e) => match e {
                Error::ParseError(rem) => to_path_spec(filename@) == Err::<Seq<char>, Seq<char>>(
                    rem@,
                ),
                _ => false,
            },
        },
{
    let cs = chars_vec(filename);
    match decode_chars(&cs) {
        Ok(v) => Ok(chars_to_string(&v)),
        Err(v) => Err(Error::ParseError(chars_to_string(&v))),
    }
}

/// Converts a native path, given as raw bytes, into its encoded filename;
/// bytes that are not valid text are returned inside the error.
pub fn to_filename(path: &[u8]) -> (r: Result<String, Error>)
    ensures
        match r {
            Ok(s) => valid_utf8(path@) && s@ == to_filename_spec(decode_utf8(path@)),
            Err(e) => match e {
                Error::CouldntEncodeToUtf8(b) => !valid_utf8(path@) && b@ == path@,
                _ => false,
            },
        },
{
    match core::str::from_utf8(path) {
        Ok(s) => Ok(to_filename_from_str(s)),
        Err(_) => Err(Error::CouldntEncodeToUtf8(slice_to_vec(path))),
    }
}

/// Converts an encoded filename, given as raw bytes, back into the native
/// path it encodes; bytes that are not valid text are returned inside the
/// error.
pub fn to_path(filename: &[u8]) -> (r: Result<String, Error>)
    ensures
        match r {
            Ok(s) => valid_utf8(filename@) && to_path_spec(decode_utf8(filename@)) == Ok::<
                Seq<char>,
                Seq<char>,
            >(s@),
            Err(e) => match e {
                Error::CouldntEncodeToUtf8(b) => !valid_utf8(filename@) && b@ == filename@,
                Error::ParseError(rem) => valid_utf8(filename@) && to_path_spec(
                    decode_utf8(filename@),
                ) == Err::<Seq<char>, Seq<char>>(rem@),
                _ => false,
            },
        },
{
    match core::str::from_utf8(filename) {
        Ok(s) => to_path_from_str(s),
        Err(_) => Err(Error::CouldntEncodeToUtf8(slice_to_vec(filename))),
    }
}

} // verus!
