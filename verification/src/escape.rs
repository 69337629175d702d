//! The escape table: a fixed bijection between the reserved characters and
//! their full-width or icon replacements, together with the self-escaping
//! rule that doubles a replacement character occurring literally in input.

use vstd::prelude::*;

verus! {

/// The characters that the table replaces outright: the NUL character, the
/// filesystem-reserved punctuation and the three platform marker icons.
pub open spec fn is_escape_target(c: char) -> bool {
    c == '\0' || c == '\\' || c == '/' || c == ':' || c == '*' || c == '?'
        || c == '"' || c == '<' || c == '>' || c == '|'
        || c == '\u{1F34E}' || c == '\u{1F427}' || c == '\u{1F4A0}'
}

/// The replacement character for each escape target.
pub open spec fn escaped_of(c: char) -> char
    recommends
        is_escape_target(c),
{
    if c == '\0' {
        '\u{3007}'
    } else if c == '\\' {
        '\u{FF3C}'
    } else if c == '/' {
        '\u{FF0F}'
    } else if c == ':' {
        '\u{FF1A}'
    } else if c == '*' {
        '\u{FF0A}'
    } else if c == '?' {
        '\u{FF1F}'
    } else if c == '"' {
        '\u{FF02}'
    } else if c == '<' {
        '\u{FF1C}'
    } else if c == '>' {
        '\u{FF1E}'
    } else if c == '|' {
        '\u{FF5C}'
    } else if c == '\u{1F34E}' {
        '\u{1F34F}'
    } else if c == '\u{1F427}' {
        '\u{1F424}'
    } else {
        '\u{1F6AA}'
    }
}

/// The characters that can appear as output of the table.
pub open spec fn is_escaped_output(c: char) -> bool {
    c == '\u{3007}' || c == '\u{FF3C}' || c == '\u{FF0F}' || c == '\u{FF1A}'
        || c == '\u{FF0A}' || c == '\u{FF1F}' || c == '\u{FF02}' || c == '\u{FF1C}'
        || c == '\u{FF1E}' || c == '\u{FF5C}'
        || c == '\u{1F34F}' || c == '\u{1F424}' || c == '\u{1F6AA}'
}

/// The escape target that a replacement character stands for.
pub open spec fn target_of(c: char) -> char
    recommends
        is_escaped_output(c),
{
    if c == '\u{3007}' {
        '\0'
    } else if c == '\u{FF3C}' {
        '\\'
    } else if c == '\u{FF0F}' {
        '/'
    } else if c == '\u{FF1A}' {
        ':'
    } else if c == '\u{FF0A}' {
        '*'
    } else if c == '\u{FF1F}' {
        '?'
    } else if c == '\u{FF02}' {
        '"'
    } else if c == '\u{FF1C}' {
        '<'
    } else if c == '\u{FF1E}' {
        '>'
    } else if c == '\u{FF5C}' {
        '|'
    } else if c == '\u{1F34F}' {
        '\u{1F34E}'
    } else if c == '\u{1F424}' {
        '\u{1F427}'
    } else {
        '\u{1F4A0}'
    }
}

/// What one input character contributes to the escaped output: a target is
/// replaced, an output character is doubled, anything else passes through.
pub open spec fn escape_char(c: char) -> Seq<char> {
    if is_escape_target(c) {
        seq![escaped_of(c)]
    } else if is_escaped_output(c) {
        seq![c, c]
    } else {
        seq![c]
    }
}

/// The escaped form of a whole text.
pub open spec fn escape_text(s: Seq<char>) -> Seq<char>
    decreases s.len(),
{
    if s.len() == 0 {
        Seq::empty()
    } else {
        escape_char(s[0]) + escape_text(s.skip(1))
    }
}

/// Greedy decoding: a doubled output character collapses to one copy, a
/// single output character maps back to its target, anything else passes
/// through unchanged.
pub open spec fn unescape_text(s: Seq<char>) -> Seq<char>
    decreases s.len(),
{
    if s.len() == 0 {
        Seq::empty()
    } else if s.len() >= 2 && s[1] == s[0] && is_escaped_output(s[0]) {
        seq![s[0]] + unescape_text(s.skip(2))
    } else if is_escaped_output(s[0]) {
        seq![target_of(s[0])] + unescape_text(s.skip(1))
    } else {
        seq![s[0]] + unescape_text(s.skip(1))
    }
}

/// True when the next greedily decoded character of `s` is exactly `sep`,
/// which is where a path-component decode halts.
pub open spec fn first_item_is_sep(s: Seq<char>, sep: char) -> bool {
    s.len() > 0 && {
        if s.len() >= 2 && s[1] == s[0] && is_escaped_output(s[0]) {
            s[0] == sep
        } else if is_escaped_output(s[0]) {
            target_of(s[0]) == sep
        } else {
            s[0] == sep
        }
    }
}

/// The component-bounded decode: decodes greedily as `unescape_text` does,
/// but halts (without consuming) as soon as the decoded character would be a
/// bare `sep`. Returns the decoded component and the unconsumed remainder.
pub open spec fn component_split(s: Seq<char>, sep: char) -> (Seq<char>, Seq<char>)
    decreases s.len(),
{
    if !first_item_is_sep(s, sep) && s.len() > 0 {
        if s.len() >= 2 && s[1] == s[0] && is_escaped_output(s[0]) {
            let r = component_split(s.skip(2), sep);
            (seq![s[0]] + r.0, r.1)
        } else if is_escaped_output(s[0]) {
            let r = component_split(s.skip(1), sep);
            (seq![target_of(s[0])] + r.0, r.1)
        } else {
            let r = component_split(s.skip(1), sep);
            (seq![s[0]] + r.0, r.1)
        }
    } else {
        (Seq::empty(), s)
    }
}

/// A text is run-safe when no escape target is immediately followed by the
/// same target again or by that target's replacement character. On run-safe
/// text the greedy decoder inverts the escape exactly; outside it the doubled
/// self-escapes of neighbouring characters can merge (for example a text
/// containing two adjacent separators).
pub open spec fn run_safe(s: Seq<char>) -> bool
    decreases s.len(),
{
    if s.len() <= 1 {
        true
    } else {
        (is_escape_target(s[0]) ==> s[1] != s[0] && s[1] != escaped_of(s[0])) && run_safe(
            s.skip(1),
        )
    }
}

/// Replacements are drawn from the output alphabet.
pub proof fn lemma_escaped_of_is_output(c: char)
    requires
        is_escape_target(c),
    ensures
        is_escaped_output(escaped_of(c)),
        !is_escape_target(escaped_of(c)),
        target_of(escaped_of(c)) == c,
{
}

/// No character is both an escape target and a replacement.
pub proof fn lemma_alphabets_disjoint(c: char)
    ensures
        !(is_escape_target(c) && is_escaped_output(c)),
{
}

/// Distinct targets have distinct replacements.
pub proof fn lemma_escaped_of_injective(a: char, b: char)
    requires
        is_escape_target(a),
        is_escape_target(b),
        a != b,
    ensures
        escaped_of(a) != escaped_of(b),
{
}

/// Escaping distributes over concatenation.
pub proof fn lemma_escape_text_append(a: Seq<char>, b: Seq<char>)
    ensures
        escape_text(a + b) == escape_text(a) + escape_text(b),
    decreases a.len(),
{
    if a.len() == 0 {
        assert(a + b =~= b);
        assert(escape_text(a) + escape_text(b) =~= escape_text(b));
    } else {
        assert((a + b).skip(1) =~= a.skip(1) + b);
        lemma_escape_text_append(a.skip(1), b);
        assert((a + b).len() > 0);
        assert((a + b)[0] == a[0]);
        assert(escape_text(a + b) == escape_char(a[0]) + (escape_text(a.skip(1)) + escape_text(b)));
        assert(escape_char(a[0]) + (escape_text(a.skip(1)) + escape_text(b)) =~= (escape_char(a[0])
            + escape_text(a.skip(1))) + escape_text(b));
    }
}

/// The escaped text of a nonempty input starts with the first character's
/// contribution, which is never empty.
pub proof fn lemma_escape_text_head(s: Seq<char>)
    requires
        s.len() > 0,
    ensures
        escape_text(s).len() > 0,
        escape_text(s)[0] == escape_char(s[0])[0],
{
    assert(escape_text(s) == escape_char(s[0]) + escape_text(s.skip(1)));
    assert(escape_char(s[0]).len() >= 1);
}

/// If `c` is a target whose replacement the following text must not start
/// with (its successor in a run-safe text differs from `c` and from the
/// replacement), then the escaped continuation indeed does not start with
/// that replacement.
proof fn lemma_next_head_differs(c: char, rest: Seq<char>, k: Seq<char>)
    requires
        is_escape_target(c),
        rest.len() > 0 ==> rest[0] != c && rest[0] != escaped_of(c),
        rest.len() == 0 ==> k.len() == 0 || k[0] != escaped_of(c),
    ensures
        (escape_text(rest) + k).len() == 0 || (escape_text(rest) + k)[0] != escaped_of(c),
{
    let w = escape_text(rest) + k;
    if rest.len() > 0 {
        lemma_escape_text_head(rest);
        assert(w[0] == escape_char(rest[0])[0]);
        if is_escape_target(rest[0]) {
            lemma_escaped_of_injective(rest[0], c);
        } else if is_escaped_output(rest[0]) {
            assert(w[0] == rest[0]);
        } else {
            lemma_escaped_of_is_output(c);
        }
    } else {
        assert(escape_text(rest) =~= Seq::<char>::empty());
        assert(w =~= k);
    }
}

/// The central inversion lemma: on a run-safe text the greedy decoder
/// consumes exactly the escaped form and leaves any continuation `k` alone,
/// provided `k` does not start with the replacement of a trailing target.
pub proof fn lemma_unescape_escape_concat(s: Seq<char>, k: Seq<char>)
    requires
        run_safe(s),
        s.len() > 0 && is_escape_target(s.last()) ==> k.len() == 0 || k[0] != escaped_of(s.last()),
    ensures
        unescape_text(escape_text(s) + k) == s + unescape_text(k),
    decreases s.len(),
{
    if s.len() == 0 {
        assert(escape_text(s) + k =~= k);
        assert(s + unescape_text(k) =~= unescape_text(k));
    } else {
        let c = s[0];
        let s1 = s.skip(1);
        let w = escape_text(s) + k;
        assert(escape_text(s) == escape_char(c) + escape_text(s1));
        assert(w =~= escape_char(c) + (escape_text(s1) + k));
        if s1.len() > 0 {
            assert(s1.last() == s.last());
        }
        if is_escape_target(c) {
            let e = escaped_of(c);
            lemma_escaped_of_is_output(c);
            assert(w[0] == e);
            if s1.len() > 0 {
                assert(s1[0] == s[1]);
            } else {
                assert(s.last() == c);
            }
            lemma_next_head_differs(c, s1, k);
            assert(w.skip(1) =~= escape_text(s1) + k);
            if w.len() >= 2 {
                assert(w[1] == (escape_text(s1) + k)[0]);
                assert(w[1] != e);
            }
            lemma_unescape_escape_concat(s1, k);
            assert(unescape_text(w) == seq![target_of(e)] + (s1 + unescape_text(k)));
            assert(seq![c] + (s1 + unescape_text(k)) =~= s + unescape_text(k));
        } else if is_escaped_output(c) {
            assert(w[0] == c);
            assert(w[1] == c);
            assert(w.skip(2) =~= escape_text(s1) + k);
            lemma_unescape_escape_concat(s1, k);
            assert(unescape_text(w) == seq![c] + (s1 + unescape_text(k)));
            assert(seq![c] + (s1 + unescape_text(k)) =~= s + unescape_text(k));
        } else {
            assert(w[0] == c);
            assert(w.skip(1) =~= escape_text(s1) + k);
            if w.len() >= 2 && w[1] == w[0] {
                assert(!is_escaped_output(w[0]));
            }
            lemma_unescape_escape_concat(s1, k);
            assert(unescape_text(w) == seq![c] + (s1 + unescape_text(k)));
            assert(seq![c] + (s1 + unescape_text(k)) =~= s + unescape_text(k));
        }
    }
}

/// The component-bounded decoder also inverts escaping: it consumes exactly
/// the escaped form of a separator-free run-safe component and halts right
/// before the continuation `k`, provided the first decoded character of `k`
/// is the separator (or `k` is empty).
pub proof fn lemma_component_split_escape(u: Seq<char>, k: Seq<char>, sep: char)
    requires
        run_safe(u),
        forall|i: int| 0 <= i < u.len() ==> u[i] != sep,
        u.len() > 0 && is_escape_target(u.last()) ==> k.len() == 0 || k[0] != escaped_of(u.last()),
        k.len() == 0 || first_item_is_sep(k, sep),
    ensures
        component_split(escape_text(u) + k, sep) == (u, k),
    decreases u.len(),
{
    if u.len() == 0 {
        assert(escape_text(u) + k =~= k);
        if k.len() > 0 {
            assert(component_split(k, sep) == (Seq::<char>::empty(), k));
        }
        assert(component_split(escape_text(u) + k, sep) == (u, k));
    } else {
        let c = u[0];
        let u1 = u.skip(1);
        let w = escape_text(u) + k;
        assert(escape_text(u) == escape_char(c) + escape_text(u1));
        assert(w =~= escape_char(c) + (escape_text(u1) + k));
        if u1.len() > 0 {
            assert(u1.last() == u.last());
            assert(forall|i: int| 0 <= i < u1.len() ==> u1[i] == u[i + 1]);
        }
        if is_escape_target(c) {
            let e = escaped_of(c);
            lemma_escaped_of_is_output(c);
            assert(w[0] == e);
            if u1.len() > 0 {
                assert(u1[0] == u[1]);
            } else {
                assert(u.last() == c);
            }
            lemma_next_head_differs(c, u1, k);
            assert(w.skip(1) =~= escape_text(u1) + k);
            if w.len() >= 2 {
                assert(w[1] == (escape_text(u1) + k)[0]);
                assert(w[1] != e);
            }
            assert(target_of(e) == c);
            assert(c != sep);
            assert(!first_item_is_sep(w, sep));
            lemma_component_split_escape(u1, k, sep);
            assert(component_split(w, sep).0 == seq![c] + u1);
            assert(seq![c] + u1 =~= u);
        } else if is_escaped_output(c) {
            assert(w[0] == c);
            assert(w[1] == c);
            assert(c != sep);
            assert(!first_item_is_sep(w, sep));
            assert(w.skip(2) =~= escape_text(u1) + k);
            lemma_component_split_escape(u1, k, sep);
            assert(component_split(w, sep).0 == seq![c] + u1);
            assert(seq![c] + u1 =~= u);
        } else {
            assert(w[0] == c);
            assert(c != sep);
            assert(!first_item_is_sep(w, sep));
            assert(w.skip(1) =~= escape_text(u1) + k);
            lemma_component_split_escape(u1, k, sep);
            assert(component_split(w, sep).0 == seq![c] + u1);
            assert(seq![c] + u1 =~= u);
        }
    }
}

/// Escaping a replacement character doubles it in place: the escaped text
/// splits around position `i` into the untouched left part, the doubled
/// character, and the untouched right part.
pub proof fn lemma_self_escape_doubling(s: Seq<char>, i: int)
    requires
        0 <= i < s.len(),
        is_escaped_output(s[i]),
    ensures
        escape_text(s) == escape_text(s.take(i)) + seq![s[i], s[i]] + escape_text(s.skip(i + 1)),
{
    assert(s =~= s.take(i) + seq![s[i]] + s.skip(i + 1));
    lemma_escape_text_append(s.take(i) + seq![s[i]], s.skip(i + 1));
    lemma_escape_text_append(s.take(i), seq![s[i]]);
    assert(escape_text(seq![s[i]]) == escape_char(s[i]) + escape_text(seq![s[i]].skip(1)));
    assert(seq![s[i]].skip(1) =~= Seq::<char>::empty());
    assert(escape_char(s[i]) + Seq::<char>::empty() =~= seq![s[i], s[i]]);
    assert(escape_text(s.take(i)) + seq![s[i], s[i]] + escape_text(s.skip(i + 1)) =~= (escape_text(
        s.take(i),
    ) + seq![s[i], s[i]]) + escape_text(s.skip(i + 1)));
}

/// A doubled replacement character at the front of the decoder's input
/// collapses back to a single copy.
pub proof fn lemma_doubled_collapse(c: char, rest: Seq<char>)
    requires
        is_escaped_output(c),
    ensures
        unescape_text(seq![c, c] + rest) == seq![c] + unescape_text(rest),
{
    let w = seq![c, c] + rest;
    assert(w[0] == c && w[1] == c);
    assert(w.skip(2) =~= rest);
}

/// Unescaping inverts escaping on every run-safe text.
pub proof fn lemma_unescape_escape(s: Seq<char>)
    requires
        run_safe(s),
    ensures
        unescape_text(escape_text(s)) == s,
{
    lemma_unescape_escape_concat(s, Seq::empty());
    assert(escape_text(s) + Seq::<char>::empty() =~= escape_text(s));
    assert(s + unescape_text(Seq::empty()) =~= s);
}

/// Run-safety is preserved by dropping a prefix.
pub proof fn lemma_run_safe_skip(s: Seq<char>, n: int)
    requires
        run_safe(s),
        0 <= n <= s.len(),
    ensures
        run_safe(s.skip(n)),
    decreases n,
{
    if n == 0 {
        assert(s.skip(0) =~= s);
    } else if s.len() <= 1 {
        assert(s.skip(n).len() <= 1);
    } else {
        lemma_run_safe_skip(s.skip(1), n - 1);
        assert(s.skip(1).skip(n - 1) =~= s.skip(n));
    }
}

/// When a run-safe text starts with the separator (itself an escape
/// target), its escaped form starts with a decoded separator, which is
/// where a component decode halts.
pub proof fn lemma_escaped_tail_stops(tail: Seq<char>, sep: char)
    requires
        is_escape_target(sep),
        run_safe(tail),
        tail.len() > 0,
        tail[0] == sep,
    ensures
        first_item_is_sep(escape_text(tail), sep),
{
    let e = escaped_of(sep);
    lemma_escaped_of_is_output(sep);
    let t1 = tail.skip(1);
    let w = escape_text(tail);
    assert(w == escape_char(sep) + escape_text(t1));
    assert(w[0] == e);
    if t1.len() > 0 {
        assert(t1[0] == tail[1]);
        assert(tail[1] != sep && tail[1] != e);
    }
    lemma_next_head_differs(sep, t1, Seq::empty());
    assert(escape_text(t1) + Seq::<char>::empty() =~= escape_text(t1));
    if w.len() >= 2 {
        assert(w[1] == escape_text(t1)[0]);
        assert(escape_text(t1).len() > 0);
        assert(w[1] != e);
    }
    assert(target_of(e) == sep);
}

/// Executable lookup of a target's replacement.
pub fn escape_lookup(c: char) -> (r: Option<char>)
    ensures
        match r {
            Some(e) => is_escape_target(c) && e == escaped_of(c),
            None => !is_escape_target(c),
        },
{
    if c == '\0' {
        Some('\u{3007}')
    } else if c == '\\' {
        Some('\u{FF3C}')
    } else if c == '/' {
        Some('\u{FF0F}')
    } else if c == ':' {
        Some('\u{FF1A}')
    } else if c == '*' {
        Some('\u{FF0A}')
    } else if c == '?' {
        Some('\u{FF1F}')
    } else if c == '"' {
        Some('\u{FF02}')
    } else if c == '<' {
        Some('\u{FF1C}')
    } else if c == '>' {
        Some('\u{FF1E}')
    } else if c == '|' {
        Some('\u{FF5C}')
    } else if c == '\u{1F34E}' {
        Some('\u{1F34F}')
    } else if c == '\u{1F427}' {
        Some('\u{1F424}')
    } else if c == '\u{1F4A0}' {
        Some('\u{1F6AA}')
    } else {
        None
    }
}

/// Executable lookup of a replacement's target.
pub fn unescape_lookup(c: char) -> (r: Option<char>)
    ensures
        match r {
            Some(t) => is_escaped_output(c) && t == target_of(c),
            None => !is_escaped_output(c),
        },
{
    if c == '\u{3007}' {
        Some('\0')
    } else if c == '\u{FF3C}' {
        Some('\\')
    } else if c == '\u{FF0F}' {
        Some('/')
    } else if c == '\u{FF1A}' {
        Some(':')
    } else if c == '\u{FF0A}' {
        Some('*')
    } else if c == '\u{FF1F}' {
        Some('?')
    } else if c == '\u{FF02}' {
        Some('"')
    } else if c == '\u{FF1C}' {
        Some('<')
    } else if c == '\u{FF1E}' {
        Some('>')
    } else if c == '\u{FF5C}' {
        Some('|')
    } else if c == '\u{1F34F}' {
        Some('\u{1F34E}')
    } else if c == '\u{1F424}' {
        Some('\u{1F427}')
    } else if c == '\u{1F6AA}' {
        Some('\u{1F4A0}')
    } else {
        None
    }
}

/// Executable membership test for the output alphabet.
pub fn is_escaped_output_exec(c: char) -> (r: bool)
    ensures
        r == is_escaped_output(c),
{
    let l = unescape_lookup(c);
    l.is_some()
}

/// Escapes the characters of `s` from position `from` on.
pub fn escape_chars_from(s: &Vec<char>, from: usize) -> (r: Vec<char>)
    requires
        from <= s@.len(),
    ensures
        r@ == escape_text(s@.skip(from as int)),
{
    let mut r: Vec<char> = Vec::new();
    let mut i: usize = from;
    while i < s.len()
        invariant
            from <= i <= s@.len(),
            r@ == escape_text(s@.subrange(from as int, i as int)),
        decreases s@.len() - i,
    {
        let c = s[i];
        proof {
            assert(s@.subrange(from as int, i + 1) =~= s@.subrange(from as int, i as int)
                + seq![c]);
            lemma_escape_text_append(s@.subrange(from as int, i as int), seq![c]);
            assert(escape_text(seq![c]) == escape_char(c) + escape_text(seq![c].skip(1)));
            assert(seq![c].skip(1) =~= Seq::<char>::empty());
            assert(escape_char(c) + Seq::<char>::empty() =~= escape_char(c));
        }
        match escape_lookup(c) {
            Some(e) => {
                r.push(e);
                proof {
                    assert(r@ =~= escape_text(s@.subrange(from as int, i as int)) + escape_char(c));
                }
            },
            None => {
                if is_escaped_output_exec(c) {
                    r.push(c);
                    r.push(c);
                    proof {
                        assert(r@ =~= escape_text(s@.subrange(from as int, i as int)) + escape_char(
                            c,
                        ));
                    }
                } else {
                    r.push(c);
                    proof {
                        assert(r@ =~= escape_text(s@.subrange(from as int, i as int)) + escape_char(
                            c,
                        ));
                    }
                }
            },
        }
        i = i + 1;
    }
    proof {
        assert(s@.subrange(from as int, s@.len() as int) =~= s@.skip(from as int));
    }
    r
}

/// Greedily unescapes the characters of `s` from position `from` on.
pub fn unescape_chars_from(s: &Vec<char>, from: usize) -> (r: Vec<char>)
    requires
        from <= s@.len(),
    ensures
        r@ == unescape_text(s@.skip(from as int)),
{
    let mut r: Vec<char> = Vec::new();
    let mut i: usize = from;
    while i < s.len()
        invariant
            from <= i <= s@.len(),
            unescape_text(s@.skip(from as int)) == r@ + unescape_text(s@.skip(i as int)),
        decreases s@.len() - i,
    {
        let ghost pre = r@;
        let ghost cur = s@.skip(i as int);
        let c = s[i];
        proof {
            assert(cur.len() > 0 && cur[0] == c);
            if cur.len() >= 2 {
                assert(cur[1] == s@[i + 1]);
            }
        }
        if i + 1 < s.len() && s[i + 1] == c && is_escaped_output_exec(c) {
            r.push(c);
            i = i + 2;
            proof {
                assert(cur.skip(2) =~= s@.skip(i as int));
                assert(unescape_text(cur) == seq![c] + unescape_text(s@.skip(i as int)));
                assert(pre + (seq![c] + unescape_text(s@.skip(i as int))) =~= r@ + unescape_text(
                    s@.skip(i as int),
                ));
            }
        } else {
            let out = match unescape_lookup(c) {
                Some(t) => t,
                None => c,
            };
            r.push(out);
            i = i + 1;
            proof {
                assert(cur.skip(1) =~= s@.skip(i as int));
                assert(unescape_text(cur) == seq![out] + unescape_text(s@.skip(i as int)));
                assert(pre + (seq![out] + unescape_text(s@.skip(i as int))) =~= r@ + unescape_text(
                    s@.skip(i as int),
                ));
            }
        }
    }
    proof {
        assert(s@.skip(s@.len() as int) =~= Seq::<char>::empty());
        assert(r@ + unescape_text(Seq::<char>::empty()) =~= r@);
    }
    r
}

/// The executable component-bounded decode: unescapes from `from` on until
/// the decoded character would be a bare `sep`, and reports the position
/// where it halted.
pub fn split_component(s: &Vec<char>, from: usize, sep: char) -> (r: (Vec<char>, usize))
    requires
        from <= s@.len(),
    ensures
        from <= r.1 <= s@.len(),
        r.0@ == component_split(s@.skip(from as int), sep).0,
        s@.skip(r.1 as int) == component_split(s@.skip(from as int), sep).1,
{
    let mut r: Vec<char> = Vec::new();
    let mut i: usize = from;
    let mut done: bool = false;
    while !done && i < s.len()
        invariant
            from <= i <= s@.len(),
            done ==> first_item_is_sep(s@.skip(i as int), sep),
            component_split(s@.skip(from as int), sep).0 == r@ + component_split(
                s@.skip(i as int),
                sep,
            ).0,
            component_split(s@.skip(from as int), sep).1 == component_split(
                s@.skip(i as int),
                sep,
            ).1,
        decreases s@.len() - i + (if done {
            0int
        } else {
            1int
        }),
    {
        let ghost pre = r@;
        let ghost cur = s@.skip(i as int);
        let c = s[i];
        proof {
            assert(cur.len() > 0 && cur[0] == c);
            if cur.len() >= 2 {
                assert(cur[1] == s@[i + 1]);
            }
        }
        if i + 1 < s.len() && s[i + 1] == c && is_escaped_output_exec(c) {
            if c == sep {
                done = true;
                proof {
                    assert(first_item_is_sep(cur, sep));
                }
            } else {
                r.push(c);
                i = i + 2;
                proof {
                    assert(!first_item_is_sep(cur, sep));
                    assert(cur.skip(2) =~= s@.skip(i as int));
                    assert(pre + (seq![c] + component_split(s@.skip(i as int), sep).0) =~= r@
                        + component_split(s@.skip(i as int), sep).0);
                }
            }
        } else {
            let out = match unescape_lookup(c) {
                Some(t) => t,
                None => c,
            };
            if out == sep {
                done = true;
                proof {
                    assert(first_item_is_sep(cur, sep));
                }
            } else {
                r.push(out);
                i = i + 1;
                proof {
                    assert(!first_item_is_sep(cur, sep));
                    assert(cur.skip(1) =~= s@.skip(i as int));
                    assert(pre + (seq![out] + component_split(s@.skip(i as int), sep).0) =~= r@
                        + component_split(s@.skip(i as int), sep).0);
                }
            }
        }
    }
    proof {
        let cur = s@.skip(i as int);
        if i == s@.len() {
            assert(cur =~= Seq::<char>::empty());
        }
        assert(component_split(cur, sep) == (Seq::<char>::empty(), cur));
        assert(r@ + Seq::<char>::empty() =~= r@);
    }
    (r, i)
}

} // verus!
