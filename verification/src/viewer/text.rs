//! Text the viewer shows: log lines without terminal colour codes, names
//! cut to a width, and error messages without their backtrace.
use vstd::prelude::*;

use crate::text::{
    chars_of, chars_start_with, lemma_utf8_len_take_le, lemma_utf8_len_take_step, lowercase, push_char,
    push_str, starts_with, str_lowercase, trim_chars, trimmed, utf8_len, utf8_width, utf8_width_of,
};

verus! {

/// Whether `char::is_alphabetic` holds of `c` (the Unicode `Alphabetic`
/// property).
pub uninterp spec fn char_is_alphabetic(c: char) -> bool;

/// Calls `char::is_alphabetic`: whether `c` has the Unicode `Alphabetic`
/// property. The property's table is not written out here; the result is
/// named `char_is_alphabetic`.
#[verifier::external_body]
fn alphabetic(c: char) -> (r: bool)
    ensures
        r == char_is_alphabetic(c),
{
    c.is_alphabetic()
}

/// Reading `s` from the start: the characters kept so far, and whether an
/// escape sequence is open. ESC opens one; it runs to the next alphabetic
/// character, which it includes.
pub open spec fn ansi_scan(s: Seq<char>) -> (Seq<char>, bool)
    decreases s.len(),
{
    if s.len() == 0 {
        (seq![], false)
    } else {
        let (kept, open) = ansi_scan(s.drop_last());
        let c = s.last();
        if open {
            (kept, !char_is_alphabetic(c))
        } else if c == '\x1b' {
            (kept, true)
        } else {
            (kept.push(c), false)
        }
    }
}

/// `s` without its terminal escape sequences.
pub open spec fn ansi_stripped(s: Seq<char>) -> Seq<char> {
    ansi_scan(s).0
}

/// `input` without the terminal escape sequences (such as colour codes)
/// that start with ESC and end with a letter.
pub fn strip_ansi_codes(input: &str) -> (r: String)
    ensures
        r@ == ansi_stripped(input@),
{
    let cs = chars_of(input);
    let mut output = String::new();
    let mut in_escape = false;
    let mut i: usize = 0;
    while i < cs.len()
        invariant
            cs@ == input@,
            i <= cs@.len(),
            (output@, in_escape) == ansi_scan(cs@.take(i as int)),
        decreases cs.len() - i,
    {
        let c = cs[i];
        assert(cs@.take(i + 1).drop_last() =~= cs@.take(i as int));
        if in_escape {
            if alphabetic(c) {
                in_escape = false;
            }
        } else if c == '\x1b' {
            in_escape = true;
        } else {
            push_char(&mut output, c);
        }
        i = i + 1;
    }
    assert(cs@.take(cs.len() as int) =~= cs@);
    output
}

proof fn lemma_ansi_scan_clean(s: Seq<char>)
    ensures
        forall|i: int| 0 <= i < ansi_scan(s).0.len() ==> ansi_scan(s).0[i] != '\x1b',
    decreases s.len(),
{
    if s.len() > 0 {
        lemma_ansi_scan_clean(s.drop_last());
        let (kept, open) = ansi_scan(s.drop_last());
        let c = s.last();
        if !open && c != '\x1b' {
            assert forall|i: int| 0 <= i < kept.push(c).len() implies kept.push(c)[i] != '\x1b' by {
                if i < kept.len() {
                    assert(kept.push(c)[i] == kept[i]);
                }
            }
        }
    }
}

proof fn lemma_ansi_scan_plain(s: Seq<char>)
    requires
        forall|i: int| 0 <= i < s.len() ==> s[i] != '\x1b',
    ensures
        ansi_scan(s) == (s, false),
    decreases s.len(),
{
    if s.len() > 0 {
        lemma_ansi_scan_plain(s.drop_last());
        assert(s.drop_last().push(s.last()) =~= s);
    }
}

/// Stripping leaves no ESC character behind.
pub proof fn law_strip_ansi_leaves_no_escape(s: Seq<char>)
    ensures
        forall|i: int| 0 <= i < ansi_stripped(s).len() ==> ansi_stripped(s)[i] != '\x1b',
{
    lemma_ansi_scan_clean(s);
}

/// Text without ESC characters is kept as it is.
pub proof fn law_strip_ansi_keeps_plain_text(s: Seq<char>)
    requires
        forall|i: int| 0 <= i < s.len() ==> s[i] != '\x1b',
    ensures
        ansi_stripped(s) == s,
{
    lemma_ansi_scan_plain(s);
}

/// `idx` picks the characters of `a` out of `b`, in order: character `k` of
/// `a` is character `idx[k]` of `b`, and the positions increase.
pub open spec fn picks(idx: Seq<int>, a: Seq<char>, b: Seq<char>) -> bool {
    &&& idx.len() == a.len()
    &&& forall|k: int| 0 <= k < a.len() ==> 0 <= #[trigger] idx[k] < b.len() && a[k] == b[idx[k]]
    &&& forall|k1: int, k2: int| 0 <= k1 < k2 < a.len() ==> #[trigger] idx[k1] < #[trigger] idx[k2]
}

/// `a` is `b` with some characters left out.
pub open spec fn is_subsequence(a: Seq<char>, b: Seq<char>) -> bool {
    exists|idx: Seq<int>| #[trigger] picks(idx, a, b)
}

proof fn lemma_ansi_scan_picks(s: Seq<char>) -> (idx: Seq<int>)
    ensures
        picks(idx, ansi_scan(s).0, s),
    decreases s.len(),
{
    if s.len() == 0 {
        Seq::empty()
    } else {
        let prev = lemma_ansi_scan_picks(s.drop_last());
        let (kept, open) = ansi_scan(s.drop_last());
        let c = s.last();
        if !open && c != '\x1b' {
            let idx = prev.push(s.len() - 1);
            assert forall|k: int| 0 <= k < kept.push(c).len() implies 0 <= #[trigger] idx[k] < s.len() && kept.push(c)[k]
                == s[idx[k]] by {
                if k < kept.len() {
                    assert(idx[k] == prev[k]);
                    assert(s.drop_last()[prev[k]] == s[prev[k]]);
                }
            }
            assert forall|k1: int, k2: int| 0 <= k1 < k2 < kept.push(c).len() implies #[trigger] idx[k1] < #[trigger] idx[k2] by {
                assert(idx[k1] == prev[k1]);
                if k2 < kept.len() {
                    assert(idx[k2] == prev[k2]);
                }
            }
            idx
        } else {
            assert forall|k: int| 0 <= k < kept.len() implies 0 <= #[trigger] prev[k] < s.len() && kept[k] == s[prev[k]] by {
                assert(s.drop_last()[prev[k]] == s[prev[k]]);
            }
            prev
        }
    }
}

/// Stripping only leaves characters out: the result is the input with some
/// characters removed, in their order.
pub proof fn law_strip_ansi_subsequence(s: Seq<char>)
    ensures
        is_subsequence(ansi_stripped(s), s),
{
    let idx = lemma_ansi_scan_picks(s);
    assert(picks(idx, ansi_stripped(s), s));
}

/// What `strip_ansi_codes` gives: no ESC is left, only characters of the
/// input are kept and in their order, text without ESC comes back as it
/// is, and stripping again changes nothing.
pub proof fn law_strip_ansi_codes(s: Seq<char>)
    ensures
        forall|i: int| 0 <= i < ansi_stripped(s).len() ==> ansi_stripped(s)[i] != '\x1b',
        is_subsequence(ansi_stripped(s), s),
        (forall|i: int| 0 <= i < s.len() ==> s[i] != '\x1b') ==> ansi_stripped(s) == s,
        ansi_stripped(ansi_stripped(s)) == ansi_stripped(s),
{
    law_strip_ansi_leaves_no_escape(s);
    law_strip_ansi_subsequence(s);
    if forall|i: int| 0 <= i < s.len() ==> s[i] != '\x1b' {
        law_strip_ansi_keeps_plain_text(s);
    }
    law_strip_ansi_idempotent(s);
}

/// Stripping twice strips no more than stripping once.
pub proof fn law_strip_ansi_idempotent(s: Seq<char>)
    ensures
        ansi_stripped(ansi_stripped(s)) == ansi_stripped(s),
{
    lemma_ansi_scan_clean(s);
    lemma_ansi_scan_plain(ansi_stripped(s));
}

} // verus!

verus! {

/// What `String::from_utf8_lossy` makes of the first `k` bytes of the UTF-8
/// form of `s`: the characters that lie wholly within them, and one U+FFFD
/// where the cut falls inside a character.
pub open spec fn lossy_prefix(s: Seq<char>, k: int) -> Seq<char>
    decreases s.len(),
{
    if s.len() == 0 || k <= 0 {
        seq![]
    } else if utf8_width(s[0]) <= k {
        seq![s[0]] + lossy_prefix(s.drop_first(), k - utf8_width(s[0]))
    } else {
        seq!['\u{FFFD}']
    }
}

/// `s` cut to its first `max_len` bytes, with `...` added, where it is
/// longer; otherwise `s` itself.
pub open spec fn cut_off(s: Seq<char>, max_len: nat) -> Seq<char> {
    if utf8_len(s) > max_len {
        lossy_prefix(s, max_len as int) + "..."@
    } else {
        s
    }
}

proof fn lemma_lossy_split(s: Seq<char>, k: int, i: int)
    requires
        0 <= i <= s.len(),
        utf8_len(s.take(i)) <= k,
    ensures
        lossy_prefix(s, k) == s.take(i) + lossy_prefix(s.skip(i), k - utf8_len(s.take(i))),
    decreases i,
{
    if i == 0 {
        assert(s.take(0) =~= Seq::<char>::empty());
        assert(s.skip(0) =~= s);
    } else {
        let t = s.drop_first();
        assert(s.take(i).drop_first() =~= t.take(i - 1));
        assert(s.take(i)[0] == s[0]);
        lemma_lossy_split(t, k - utf8_width(s[0]), i - 1);
        assert(s.skip(i) =~= t.skip(i - 1));
        assert(s.take(i) =~= seq![s[0]] + t.take(i - 1));
    }
}

/// `string` cut to `max_len` bytes, with `...` added, where it is longer; a
/// character cut in two becomes U+FFFD.
pub fn cutoff_string(string: String, max_len: usize) -> (r: String)
    ensures
        r@ == cut_off(string@, max_len as nat),
{
    let cs = chars_of(string.as_str());
    let mut out = String::new();
    let mut used: usize = 0;
    let mut i: usize = 0;
    while i < cs.len()
        invariant
            cs@ == string@,
            i <= cs@.len(),
            used == utf8_len(cs@.take(i as int)),
            used <= max_len,
            out@ == cs@.take(i as int),
        decreases cs.len() - i,
    {
        let c = cs[i];
        let w = utf8_width_of(c) as usize;
        proof {
            lemma_utf8_len_take_step(cs@, i as int);
        }
        if w > max_len - used {
            proof {
                lemma_utf8_len_take_le(cs@, i + 1);
                lemma_lossy_split(cs@, max_len as int, i as int);
                assert(cs@.skip(i as int)[0] == c);
            }
            if used < max_len {
                push_char(&mut out, '\u{FFFD}');
            }
            push_str(&mut out, "...");
            proof {
                let rest = cs@.skip(i as int);
                let k = max_len - used;
                if used < max_len {
                    assert(lossy_prefix(rest, k) == seq!['\u{FFFD}']);
                } else {
                    assert(lossy_prefix(rest, k) =~= Seq::<char>::empty());
                }
            }
            return out;
        }
        push_char(&mut out, c);
        used = used + w;
        assert(out@ =~= cs@.take(i + 1));
        i = i + 1;
    }
    assert(cs@.take(cs.len() as int) =~= cs@);
    string
}

} // verus!

verus! {

/// Whether `"stack backtrace:"` stands at `j` in `t`.
pub open spec fn marker_at(t: Seq<char>, j: int) -> bool {
    0 <= j && starts_with(t.subrange(j, t.len() as int), "stack backtrace:"@)
}

/// Where `"stack backtrace:"` first stands in `t`.
pub open spec fn first_marker(t: Seq<char>) -> Option<int> {
    if exists|j: int| j <= t.len() && #[trigger] marker_at(t, j) {
        Some(choose|j: int| j <= t.len() && #[trigger] marker_at(t, j) && forall|i: int| 0 <= i < j ==> !marker_at(t, i))
    } else {
        None
    }
}

/// How many leading characters of `s` take exactly `b` bytes, if some do.
pub open spec fn chars_in_bytes(s: Seq<char>, b: int) -> Option<int>
    decreases s.len(),
{
    if b == 0 {
        Some(0)
    } else if s.len() == 0 || utf8_width(s[0]) > b {
        None
    } else {
        match chars_in_bytes(s.drop_first(), b - utf8_width(s[0])) {
            Some(k) => Some(k + 1),
            None => None,
        }
    }
}

/// An error message without its backtrace: where its lowercase form holds
/// `stack backtrace:`, the message is cut at that byte offset and trimmed.
/// `None` where that offset is no character boundary of the message, on
/// which cutting it fails.
pub open spec fn without_stacktrace(s: Seq<char>) -> Option<Seq<char>> {
    let lower = str_lowercase(s);
    match first_marker(lower) {
        None => Some(s),
        Some(j) => match chars_in_bytes(s, utf8_len(lower.take(j)) as int) {
            Some(k) => Some(trimmed(s.take(k))),
            None => None,
        },
    }
}

fn find_marker(t: &Vec<char>) -> (r: Option<usize>)
    ensures
        match r {
            Some(j) => first_marker(t@) == Some(j as int) && j <= t@.len(),
            None => first_marker(t@) is None,
        },
{
    let marker = chars_of("stack backtrace:");
    let n = t.len();
    let mut j: usize = 0;
    while j < n
        invariant
            n == t@.len(),
            marker@ == "stack backtrace:"@,
            j <= n,
            forall|i: int| 0 <= i < j ==> !marker_at(t@, i),
        decreases n - j,
    {
        if chars_start_with(t, j, n, &marker) {
            proof {
                assert(marker_at(t@, j as int));
                assert(exists|k: int|
                    k <= t@.len() && #[trigger] marker_at(t@, k) && forall|i: int| 0 <= i < k ==> !marker_at(t@, i)) by {
                    assert(j <= t@.len() && marker_at(t@, j as int));
                }
                let k = choose|k: int| k <= t@.len() && #[trigger] marker_at(t@, k) && forall|i: int| 0 <= i < k ==> !marker_at(t@, i);
                if k < j {
                    assert(!marker_at(t@, k));
                }
                if k > j {
                    assert(!marker_at(t@, j as int));
                }
            }
            return Some(j);
        }
        j = j + 1;
    }
    proof {
        reveal_strlit("stack backtrace:");
        assert(!marker_at(t@, n as int));
        assert forall|k: int| k <= t@.len() implies !#[trigger] marker_at(t@, k) by {
            if 0 <= k < n {
                assert(!marker_at(t@, k));
            }
        }
    }
    None
}

proof fn lemma_chars_in_bytes_skip(s: Seq<char>, b: int, k: int)
    requires
        0 <= k <= s.len(),
        utf8_len(s.take(k)) <= b,
    ensures
        chars_in_bytes(s, b) == (match chars_in_bytes(s.skip(k), b - utf8_len(s.take(k))) {
            Some(m) => Some(m + k),
            None => None::<int>,
        }),
    decreases k,
{
    if k == 0 {
        assert(s.take(0) =~= Seq::<char>::empty());
        assert(s.skip(0) =~= s);
        match chars_in_bytes(s, b) {
            Some(m) => {},
            None => {},
        }
    } else {
        let t = s.drop_first();
        assert(s.take(k).drop_first() =~= t.take(k - 1));
        assert(s.take(k)[0] == s[0]);
        assert(s.skip(k) =~= t.skip(k - 1));
        assert(utf8_width(s[0]) >= 1);
        lemma_chars_in_bytes_skip(t, b - utf8_width(s[0]), k - 1);
        if b == 0 {
            assert(utf8_len(s.take(k)) >= 1);
        }
    }
}

/// Where in `cs` the first `b` bytes end, in characters, if on a boundary.
fn boundary_index(cs: &Vec<char>, b: u128) -> (r: Option<usize>)
    ensures
        match r {
            Some(k) => chars_in_bytes(cs@, b as int) == Some(k as int),
            None => chars_in_bytes(cs@, b as int) is None,
        },
{
    let mut k: usize = 0;
    let mut acc: u128 = 0;
    proof {
        assert(cs@.take(0) =~= Seq::<char>::empty());
        lemma_chars_in_bytes_skip(cs@, b as int, 0);
    }
    while acc < b
        invariant
            k <= cs@.len(),
            acc == utf8_len(cs@.take(k as int)),
            acc <= b,
            chars_in_bytes(cs@, b as int) == (match chars_in_bytes(cs@.skip(k as int), b - acc) {
                Some(m) => Some(m + k),
                None => None::<int>,
            }),
        decreases b - acc,
    {
        if k == cs.len() {
            assert(cs@.skip(k as int) =~= Seq::<char>::empty());
            return None;
        }
        let w = utf8_width_of(cs[k]) as u128;
        proof {
            lemma_utf8_len_take_step(cs@, k as int);
            assert(cs@.skip(k as int)[0] == cs@[k as int]);
        }
        if w > b - acc {
            return None;
        }
        proof {
            lemma_chars_in_bytes_skip(cs@, b as int, k + 1);
        }
        acc = acc + w;
        k = k + 1;
    }
    Some(k)
}

/// The byte length of `cs[..j]`.
fn byte_len(cs: &Vec<char>, j: usize) -> (r: u128)
    requires
        j <= cs@.len(),
    ensures
        r == utf8_len(cs@.take(j as int)),
{
    let mut acc: u128 = 0;
    let mut k: usize = 0;
    assert(cs@.take(0) =~= Seq::<char>::empty());
    while k < j
        invariant
            j <= cs@.len(),
            k <= j,
            acc == utf8_len(cs@.take(k as int)),
            acc <= 4 * k,
        decreases j - k,
    {
        proof {
            lemma_utf8_len_take_step(cs@, k as int);
        }
        acc = acc + utf8_width_of(cs[k]) as u128;
        k = k + 1;
    }
    acc
}

/// The message without its backtrace, or `None` where cutting fails.
fn cut_stacktrace(s: &str) -> (r: Option<String>)
    ensures
        match r {
            Some(t) => without_stacktrace(s@) == Some(t@),
            None => without_stacktrace(s@) is None,
        },
{
    let lower = lowercase(s);
    let lc = chars_of(lower.as_str());
    match find_marker(&lc) {
        None => Some(s.to_owned()),
        Some(j) => {
            let v = byte_len(&lc, j);
            let cs = chars_of(s);
            match boundary_index(&cs, v) {
                Some(k) => {
                    proof {
                        lemma_chars_in_bytes_le(cs@, v as int);
                    }
                    Some(trim_chars(&cs, k))
                },
                None => None,
            }
        },
    }
}

proof fn lemma_chars_in_bytes_le(s: Seq<char>, b: int)
    ensures
        chars_in_bytes(s, b) matches Some(k) ==> 0 <= k <= s.len(),
    decreases s.len(),
{
    if s.len() > 0 && b != 0 {
        lemma_chars_in_bytes_le(s.drop_first(), b - utf8_width(s[0]));
    }
}

/// An error message without the backtrace that follows
/// `stack backtrace:`, trimmed; the message as it is where it holds none.
pub fn remove_stacktrace(s: &str) -> (r: String)
    requires
        without_stacktrace(s@) is Some,
    ensures
        without_stacktrace(s@) == Some(r@),
{
    match cut_stacktrace(s) {
        Some(t) => t,
        None => String::new(),
    }
}

/// As `remove_stacktrace`, or `None` where the backtrace's offset in the
/// lowercase message is no character boundary of the message, on which
/// `remove_stacktrace` cannot cut it.
pub fn try_remove_stacktrace(s: &str) -> (r: Option<String>)
    ensures
        match r {
            Some(t) => without_stacktrace(s@) == Some(t@),
            None => without_stacktrace(s@) is None,
        },
{
    match cut_stacktrace(s) {
        Some(_) => Some(remove_stacktrace(s)),
        None => None,
    }
}

} // verus!
