//! Building text: appending to strings and writing numbers in decimal and
//! hexadecimal, as the formatting of names, tables and values needs.
use vstd::prelude::*;

verus! {

/// Calls `String::push`, which appends one character.
#[verifier::external_body]
pub(crate) fn push_char(s: &mut String, c: char)
    ensures
        final(s)@ == old(s)@.push(c),
{
    s.push(c);
}

/// Calls `String::push_str`, which appends a string slice.
#[verifier::external_body]
pub(crate) fn push_str(s: &mut String, t: &str)
    ensures
        final(s)@ == old(s)@ + t@,
{
    s.push_str(t);
}

/// The lowercase hexadecimal digit for `n < 16`.
pub open spec fn hex_digit(n: u32) -> char {
    if n < 10 {
        (48 + n) as char
    } else {
        (87 + n) as char
    }
}

/// The decimal digit for `n < 10`.
pub open spec fn dec_digit(n: u32) -> char {
    (48 + n) as char
}

/// `v` in lowercase hexadecimal, without leading zeros (`{:x}`).
pub open spec fn hex_string(v: u32) -> Seq<char>
    decreases v,
{
    if v < 16 {
        seq![hex_digit(v)]
    } else {
        hex_string(v / 16).push(hex_digit(v % 16))
    }
}

/// `v` in decimal (`{}`).
pub open spec fn dec_string(v: u32) -> Seq<char>
    decreases v,
{
    if v < 10 {
        seq![dec_digit(v)]
    } else {
        dec_string(v / 10).push(dec_digit(v % 10))
    }
}

/// `v` as exactly eight lowercase hexadecimal digits (`{:08x}`).
pub open spec fn hex8(v: u32) -> Seq<char> {
    Seq::new(8, |i: int| hex_digit(((v as int / pow16(7 - i)) % 16) as u32))
}

/// 16 to the power `n`.
pub open spec fn pow16(n: int) -> int
    decreases n,
{
    if n <= 0 {
        1
    } else {
        16 * pow16(n - 1)
    }
}

fn digit_char(n: u32) -> (c: char)
    requires
        n < 16,
    ensures
        c == hex_digit(n),
        n < 10 ==> c == dec_digit(n),
{
    if n < 10 {
        ((48 + n) as u8) as char
    } else {
        ((87 + n) as u8) as char
    }
}

/// Appends `v` in decimal.
pub fn push_decimal(s: &mut String, v: u32)
    ensures
        final(s)@ == old(s)@ + dec_string(v),
    decreases v,
{
    if v >= 10 {
        push_decimal(s, v / 10);
    }
    let c = digit_char(v % 10);
    push_char(s, c);
    proof {
        if v >= 10 {
            assert(old(s)@ + dec_string(v / 10) + seq![c] =~= old(s)@ + dec_string(v));
        } else {
            assert(old(s)@.push(c) =~= old(s)@ + dec_string(v));
        }
    }
}

/// Appends `v` in lowercase hexadecimal without leading zeros.
pub fn push_hex(s: &mut String, v: u32)
    ensures
        final(s)@ == old(s)@ + hex_string(v),
    decreases v,
{
    if v >= 16 {
        push_hex(s, v / 16);
    }
    let c = digit_char(v % 16);
    push_char(s, c);
    proof {
        if v >= 16 {
            assert(old(s)@ + hex_string(v / 16) + seq![c] =~= old(s)@ + hex_string(v));
        } else {
            assert(old(s)@.push(c) =~= old(s)@ + hex_string(v));
        }
    }
}

/// Appends `v` as eight lowercase hexadecimal digits.
pub fn push_hex8(s: &mut String, v: u32)
    ensures
        final(s)@ == old(s)@ + hex8(v),
{
    let ghost start = s@;
    let mut i: u32 = 0;
    let mut div: u32 = 0x1000_0000;
    proof {
        reveal_with_fuel(pow16, 8);
    }
    assert(pow16(7) == 0x1000_0000);
    while i < 8
        invariant
            i <= 8,
            div as int == pow16(7 - i as int),
            s@ == start + hex8(v).subrange(0, i as int),
        decreases 8 - i,
    {
        proof {
            lemma_pow16_values(7 - i as int);
        }
        let c = digit_char((v / div) % 16);
        push_char(s, c);
        proof {
            assert(hex8(v)[i as int] == c);
            assert(s@ =~= start + hex8(v).subrange(0, i + 1));
        }
        i = i + 1;
        if i < 8 {
            div = div / 16;
            proof {
                lemma_pow16_values(7 - i as int);
                lemma_pow16_values(8 - i as int);
            }
        }
    }
    assert(hex8(v).subrange(0, 8) =~= hex8(v));
}

proof fn lemma_pow16_values(n: int)
    requires
        0 <= n <= 7,
    ensures
        pow16(n) >= 1,
        pow16(n) <= 0x1000_0000,
        n >= 1 ==> pow16(n) == 16 * pow16(n - 1),
{
    reveal_with_fuel(pow16, 8);
}

} // verus!

verus! {

broadcast use vstd::string::axiom_spec_iter;

/// The characters of `s`.
pub fn chars_of(s: &str) -> (r: Vec<char>)
    ensures
        r@ == s@,
{
    let mut v: Vec<char> = Vec::new();
    for c in it: s.chars()
        invariant
            v@ == it.seq().take(it.index() as int),
    {
        v.push(c);
    }
    v
}

} // verus!

verus! {

/// Appends the characters `cs[lo..hi]`.
pub fn push_chars(s: &mut String, cs: &Vec<char>, lo: usize, hi: usize)
    requires
        lo <= hi <= cs@.len(),
    ensures
        final(s)@ == old(s)@ + cs@.subrange(lo as int, hi as int),
{
    let ghost start = s@;
    let mut i = lo;
    while i < hi
        invariant
            lo <= i <= hi,
            hi <= cs@.len(),
            s@ == start + cs@.subrange(lo as int, i as int),
        decreases hi - i,
    {
        push_char(s, cs[i]);
        assert(s@ =~= start + cs@.subrange(lo as int, i + 1));
        i = i + 1;
    }
}

/// A string holding the characters `cs[lo..hi]`.
pub fn string_from_chars(cs: &Vec<char>, lo: usize, hi: usize) -> (r: String)
    requires
        lo <= hi <= cs@.len(),
    ensures
        r@ == cs@.subrange(lo as int, hi as int),
{
    let mut s = String::new();
    push_chars(&mut s, cs, lo, hi);
    assert(s@ =~= cs@.subrange(lo as int, hi as int));
    s
}

/// Whether `s` ends with `suffix`.
pub open spec fn ends_with(s: Seq<char>, suffix: Seq<char>) -> bool {
    suffix.len() <= s.len() && s.subrange(s.len() - suffix.len(), s.len() as int) == suffix
}

/// Whether `s` starts with `prefix`.
pub open spec fn starts_with(s: Seq<char>, prefix: Seq<char>) -> bool {
    prefix.len() <= s.len() && s.subrange(0, prefix.len() as int) == prefix
}

/// Whether `cs[lo..hi]` ends with `suffix`.
pub fn chars_end_with(cs: &Vec<char>, lo: usize, hi: usize, suffix: &Vec<char>) -> (r: bool)
    requires
        lo <= hi <= cs@.len(),
    ensures
        r == ends_with(cs@.subrange(lo as int, hi as int), suffix@),
{
    let n = suffix.len();
    if n > hi - lo {
        return false;
    }
    let mut i: usize = 0;
    while i < n
        invariant
            n == suffix@.len(),
            n <= hi - lo,
            lo <= hi <= cs@.len(),
            i <= n,
            forall|k: int| 0 <= k < i ==> cs@[hi - n + k] == suffix@[k],
        decreases n - i,
    {
        if cs[hi - n + i] != suffix[i] {
            proof {
                let sub = cs@.subrange(lo as int, hi as int);
                assert(sub.subrange(sub.len() - n, sub.len() as int)[i as int] != suffix@[i as int]);
            }
            return false;
        }
        i = i + 1;
    }
    let ghost sub = cs@.subrange(lo as int, hi as int);
    assert(sub.subrange(sub.len() - n, sub.len() as int) =~= suffix@);
    true
}

/// Whether `cs[lo..hi]` starts with `prefix`.
pub fn chars_start_with(cs: &Vec<char>, lo: usize, hi: usize, prefix: &Vec<char>) -> (r: bool)
    requires
        lo <= hi <= cs@.len(),
    ensures
        r == starts_with(cs@.subrange(lo as int, hi as int), prefix@),
{
    let n = prefix.len();
    if n > hi - lo {
        return false;
    }
    let mut i: usize = 0;
    while i < n
        invariant
            n == prefix@.len(),
            n <= hi - lo,
            lo <= hi <= cs@.len(),
            i <= n,
            forall|k: int| 0 <= k < i ==> cs@[lo + k] == prefix@[k],
        decreases n - i,
    {
        if cs[lo + i] != prefix[i] {
            proof {
                let sub = cs@.subrange(lo as int, hi as int);
                assert(sub.subrange(0, n as int)[i as int] != prefix@[i as int]);
            }
            return false;
        }
        i = i + 1;
    }
    let ghost sub = cs@.subrange(lo as int, hi as int);
    assert(sub.subrange(0, n as int) =~= prefix@);
    true
}

} // verus!

verus! {

/// Whether `c` has the Unicode `White_Space` property, as
/// `char::is_whitespace` tells.
pub open spec fn is_white_space(c: char) -> bool {
    let n = c as u32;
    ||| 0x09 <= n <= 0x0d
    ||| n == 0x20
    ||| n == 0x85
    ||| n == 0xa0
    ||| n == 0x1680
    ||| 0x2000 <= n <= 0x200a
    ||| n == 0x2028
    ||| n == 0x2029
    ||| n == 0x202f
    ||| n == 0x205f
    ||| n == 0x3000
}

/// Whether `c` has the Unicode `White_Space` property.
pub fn white_space(c: char) -> (r: bool)
    ensures
        r == is_white_space(c),
{
    let n = c as u32;
    (0x09 <= n && n <= 0x0d) || n == 0x20 || n == 0x85 || n == 0xa0 || n == 0x1680 || (0x2000 <= n
        && n <= 0x200a) || n == 0x2028 || n == 0x2029 || n == 0x202f || n == 0x205f || n == 0x3000
}

/// Reading `s` from the start: the words finished by white space, and the
/// word being read.
pub open spec fn word_scan(s: Seq<char>) -> (Seq<Seq<char>>, Seq<char>)
    decreases s.len(),
{
    if s.len() == 0 {
        (seq![], seq![])
    } else {
        let (done, cur) = word_scan(s.drop_last());
        let c = s.last();
        if is_white_space(c) {
            if cur.len() > 0 {
                (done.push(cur), seq![])
            } else {
                (done, seq![])
            }
        } else {
            (done, cur.push(c))
        }
    }
}

/// The words of `s`: its maximal runs of characters without white space,
/// in order (`str::split_whitespace`).
pub open spec fn words(s: Seq<char>) -> Seq<Seq<char>> {
    let (done, cur) = word_scan(s);
    if cur.len() > 0 {
        done.push(cur)
    } else {
        done
    }
}

/// A piece of text that is not empty and holds no white space.
pub open spec fn is_word(w: Seq<char>) -> bool {
    w.len() > 0 && forall|j: int| 0 <= j < w.len() ==> !is_white_space(#[trigger] w[j])
}

proof fn lemma_word_scan_clean(s: Seq<char>)
    ensures
        forall|i: int| 0 <= i < word_scan(s).0.len() ==> is_word(#[trigger] word_scan(s).0[i]),
        forall|j: int|
            0 <= j < word_scan(s).1.len() ==> !is_white_space(#[trigger] word_scan(s).1[j]),
    decreases s.len(),
{
    if s.len() > 0 {
        lemma_word_scan_clean(s.drop_last());
        let (done, cur) = word_scan(s.drop_last());
        let c = s.last();
        if is_white_space(c) {
            if cur.len() > 0 {
                assert forall|i: int| 0 <= i < done.push(cur).len() implies is_word(
                    #[trigger] done.push(cur)[i],
                ) by {
                    if i < done.len() {
                        assert(done.push(cur)[i] == done[i]);
                    }
                }
            }
        } else {
            assert forall|j: int| 0 <= j < cur.push(c).len() implies !is_white_space(
                #[trigger] cur.push(c)[j],
            ) by {
                if j < cur.len() {
                    assert(cur.push(c)[j] == cur[j]);
                }
            }
        }
    }
}

/// Every word is non-empty and free of white space.
pub proof fn lemma_words_are_words(s: Seq<char>)
    ensures
        forall|i: int| 0 <= i < words(s).len() ==> is_word(#[trigger] words(s)[i]),
{
    lemma_word_scan_clean(s);
}

/// The views of a vector of character vectors.
pub open spec fn char_rows(v: Seq<Vec<char>>) -> Seq<Seq<char>> {
    v.map_values(|w: Vec<char>| w@)
}

/// The words of `cs`.
pub fn words_of(cs: &Vec<char>) -> (r: Vec<Vec<char>>)
    ensures
        char_rows(r@) == words(cs@),
{
    let mut done: Vec<Vec<char>> = Vec::new();
    let mut cur: Vec<char> = Vec::new();
    let n = cs.len();
    let mut i: usize = 0;
    while i < n
        invariant
            n == cs@.len(),
            i <= n,
            (char_rows(done@), cur@) == word_scan(cs@.take(i as int)),
        decreases n - i,
    {
        let c = cs[i];
        assert(cs@.take(i + 1).drop_last() =~= cs@.take(i as int));
        if white_space(c) {
            if cur.len() > 0 {
                let w = cur;
                cur = Vec::new();
                done.push(w);
                assert(char_rows(done@) =~= word_scan(cs@.take(i as int)).0.push(w@));
            } else {
                cur = Vec::new();
            }
        } else {
            cur.push(c);
        }
        i = i + 1;
    }
    assert(cs@.take(n as int) =~= cs@);
    if cur.len() > 0 {
        let w = cur;
        done.push(w);
        assert(char_rows(done@) =~= word_scan(cs@).0.push(w@));
    }
    done
}

/// Reading `s` from the start: the lines finished by `\n` (without it, and
/// without a `\r` just before it), and the line being read.
pub open spec fn line_scan(s: Seq<char>) -> (Seq<Seq<char>>, Seq<char>)
    decreases s.len(),
{
    if s.len() == 0 {
        (seq![], seq![])
    } else {
        let (done, cur) = line_scan(s.drop_last());
        let c = s.last();
        if c == '\n' {
            if cur.len() > 0 && cur.last() == '\r' {
                (done.push(cur.drop_last()), seq![])
            } else {
                (done.push(cur), seq![])
            }
        } else {
            (done, cur.push(c))
        }
    }
}

/// The lines of `s` (`str::lines`): split at `\n` or `\r\n`, with no
/// empty line after a final line ending.
pub open spec fn lines(s: Seq<char>) -> Seq<Seq<char>> {
    let (done, cur) = line_scan(s);
    if cur.len() > 0 {
        done.push(cur)
    } else {
        done
    }
}

/// The lines of `cs`.
pub fn lines_of(cs: &Vec<char>) -> (r: Vec<Vec<char>>)
    ensures
        char_rows(r@) == lines(cs@),
{
    let mut done: Vec<Vec<char>> = Vec::new();
    let mut cur: Vec<char> = Vec::new();
    let n = cs.len();
    let mut i: usize = 0;
    while i < n
        invariant
            n == cs@.len(),
            i <= n,
            (char_rows(done@), cur@) == line_scan(cs@.take(i as int)),
        decreases n - i,
    {
        let c = cs[i];
        assert(cs@.take(i + 1).drop_last() =~= cs@.take(i as int));
        if c == '\n' {
            let mut w = cur;
            cur = Vec::new();
            let k = w.len();
            if k > 0 && w[k - 1] == '\r' {
                w.pop();
            }
            done.push(w);
            assert(char_rows(done@) =~= line_scan(cs@.take(i + 1)).0);
        } else {
            cur.push(c);
        }
        i = i + 1;
    }
    assert(cs@.take(n as int) =~= cs@);
    if cur.len() > 0 {
        let w = cur;
        done.push(w);
        assert(char_rows(done@) =~= line_scan(cs@).0.push(w@));
    }
    done
}

} // verus!

verus! {

/// Bytes that `c` takes in UTF-8.
pub open spec fn utf8_width(c: char) -> nat {
    if (c as u32) < 0x80 {
        1
    } else if (c as u32) < 0x800 {
        2
    } else if (c as u32) < 0x10000 {
        3
    } else {
        4
    }
}

/// Bytes that `c` takes in UTF-8.
pub fn utf8_width_of(c: char) -> (r: u32)
    ensures
        r == utf8_width(c),
{
    let n = c as u32;
    if n < 0x80 {
        1
    } else if n < 0x800 {
        2
    } else if n < 0x10000 {
        3
    } else {
        4
    }
}

} // verus!

verus! {

/// Bytes that `s` takes in UTF-8.
pub open spec fn utf8_len(s: Seq<char>) -> nat
    decreases s.len(),
{
    if s.len() == 0 {
        0
    } else {
        utf8_width(s[0]) + utf8_len(s.drop_first())
    }
}

/// The UTF-8 form of `s` has `utf8_len(s)` bytes.
pub proof fn lemma_utf8_len_is_byte_len(s: Seq<char>)
    ensures
        vstd::utf8::encode_utf8(s).len() == utf8_len(s),
    decreases s.len(),
{
    if s.len() > 0 {
        lemma_utf8_len_is_byte_len(s.drop_first());
        let c = s[0];
        vstd::utf8::char_is_scalar(c);
        assert(vstd::utf8::encode_scalar(c as u32).len() == utf8_width(c));
    }
}

pub proof fn lemma_utf8_len_take_step(s: Seq<char>, i: int)
    requires
        0 <= i < s.len(),
    ensures
        utf8_len(s.take(i + 1)) == utf8_len(s.take(i)) + utf8_width(s[i]),
    decreases i,
{
    if i > 0 {
        lemma_utf8_len_take_step(s.drop_first(), i - 1);
        assert(s.take(i + 1).drop_first() =~= s.drop_first().take(i));
        assert(s.take(i).drop_first() =~= s.drop_first().take(i - 1));
        assert(s.take(i + 1)[0] == s[0]);
        assert(s.take(i)[0] == s[0]);
        assert(s.drop_first()[i - 1] == s[i]);
    } else {
        assert(s.take(1).drop_first() =~= Seq::<char>::empty());
        assert(s.take(1)[0] == s[0]);
        assert(s.take(0) =~= Seq::<char>::empty());
    }
}

pub proof fn lemma_utf8_len_take_le(s: Seq<char>, i: int)
    requires
        0 <= i <= s.len(),
    ensures
        utf8_len(s.take(i)) <= utf8_len(s),
    decreases s.len() - i,
{
    if i < s.len() {
        lemma_utf8_len_take_step(s, i);
        lemma_utf8_len_take_le(s, i + 1);
    } else {
        assert(s.take(i) =~= s);
    }
}

/// What `str::to_lowercase` gives for `s` (lowercase by the Unicode
/// `Lowercase` mapping).
pub uninterp spec fn str_lowercase(s: Seq<char>) -> Seq<char>;

/// Calls `str::to_lowercase`. The Unicode mapping is not written out here;
/// the result is named `str_lowercase`.
#[verifier::external_body]
pub(crate) fn lowercase(s: &str) -> (r: String)
    ensures
        r@ == str_lowercase(s@),
{
    s.to_lowercase()
}

/// The number of white space characters at the start of `s`.
pub open spec fn leading_white(s: Seq<char>) -> nat
    decreases s.len(),
{
    if s.len() > 0 && is_white_space(s[0]) {
        1 + leading_white(s.drop_first())
    } else {
        0
    }
}

/// The number of white space characters at the end of `s`.
pub open spec fn trailing_white(s: Seq<char>) -> nat
    decreases s.len(),
{
    if s.len() > 0 && is_white_space(s.last()) {
        1 + trailing_white(s.drop_last())
    } else {
        0
    }
}

/// `s` without white space at either end (`str::trim`).
pub open spec fn trimmed(s: Seq<char>) -> Seq<char> {
    let rest = s.skip(leading_white(s) as int);
    rest.take(rest.len() - trailing_white(rest))
}

pub proof fn lemma_leading_white(s: Seq<char>, a: int)
    requires
        0 <= a <= s.len(),
        forall|i: int| 0 <= i < a ==> is_white_space(s[i]),
        a == s.len() || !is_white_space(s[a]),
    ensures
        leading_white(s) == a,
    decreases a,
{
    if a > 0 {
        lemma_leading_white(s.drop_first(), a - 1);
    }
}

pub proof fn lemma_trailing_white(s: Seq<char>, e: int)
    requires
        0 <= e <= s.len(),
        forall|i: int| e <= i < s.len() ==> is_white_space(s[i]),
        e == 0 || !is_white_space(s[e - 1]),
    ensures
        trailing_white(s) == s.len() - e,
    decreases s.len() - e,
{
    if e < s.len() {
        lemma_trailing_white(s.drop_last(), e);
    }
}

/// The characters `cs[..k]` without white space at either end.
pub fn trim_chars(cs: &Vec<char>, k: usize) -> (r: String)
    requires
        k <= cs@.len(),
    ensures
        r@ == trimmed(cs@.take(k as int)),
{
    let ghost s = cs@.take(k as int);
    let mut a: usize = 0;
    while a < k && white_space(cs[a])
        invariant
            k <= cs@.len(),
            a <= k,
            forall|i: int| 0 <= i < a ==> is_white_space(cs@[i]),
        decreases k - a,
    {
        a = a + 1;
    }
    proof {
        lemma_leading_white(s, a as int);
    }
    let mut e: usize = k;
    while e > a && white_space(cs[e - 1])
        invariant
            k <= cs@.len(),
            a <= e <= k,
            forall|i: int| e <= i < k ==> is_white_space(cs@[i]),
        decreases e,
    {
        e = e - 1;
    }
    let ghost rest = s.skip(a as int);
    proof {
        lemma_trailing_white(rest, e - a);
        assert(rest.take(rest.len() - trailing_white(rest)) =~= cs@.subrange(a as int, e as int));
    }
    string_from_chars(cs, a, e)
}

} // verus!
