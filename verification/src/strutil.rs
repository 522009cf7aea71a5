//! Small verified string algorithms shared across the crate: substring
//! search, prefix tests, character clipping and decimal rendering,
//! together with the few character-level facilities that the standard
//! library computes (case folding, character classification).

use vstd::prelude::*;
use vstd::string::StrSliceExecFns;

verus! {

/// `needle` occurs contiguously somewhere in `hay`.
pub open spec fn contains_seq(hay: Seq<char>, needle: Seq<char>) -> bool {
    exists|k: int|
        0 <= k && k + needle.len() <= hay.len() && #[trigger] hay.subrange(k, k + needle.len())
            == needle
}

/// `pre` is a prefix of `s`.
pub open spec fn head_matches(s: Seq<char>, pre: Seq<char>) -> bool {
    pre.len() <= s.len() && s.subrange(0, pre.len() as int) == pre
}

/// The needle matches `hay` exactly at position `k`.
fn match_at(hay: &str, needle: &str, k: usize, hl: usize, nl: usize) -> (r: bool)
    requires
        hl == hay@.len(),
        nl == needle@.len(),
        k + nl <= hl,
    ensures
        r == (hay@.subrange(k as int, k as int + nl as int) == needle@),
{
    let mut j: usize = 0;
    while j < nl
        invariant
            0 <= j <= nl,
            hl == hay@.len(),
            nl == needle@.len(),
            k + nl <= hl,
            forall|t: int| 0 <= t < j ==> hay@[k + t] == needle@[t],
        decreases nl - j,
    {
        if hay.get_char(k + j) != needle.get_char(j) {
            proof {
                assert(hay@.subrange(k as int, k as int + nl as int)[j as int] == hay@[k + j]);
            }
            return false;
        }
        j = j + 1;
    }
    proof {
        assert(hay@.subrange(k as int, k as int + nl as int) =~= needle@);
    }
    true
}

/// Substring search: whether `needle` occurs anywhere in `hay`.
pub fn contains_sub(hay: &str, needle: &str) -> (r: bool)
    ensures
        r == contains_seq(hay@, needle@),
{
    let hl = hay.unicode_len();
    let nl = needle.unicode_len();
    if nl > hl {
        return false;
    }
    if nl == 0 {
        proof {
            assert(hay@.subrange(0, 0 + needle@.len() as int) =~= needle@);
            assert(contains_seq(hay@, needle@));
        }
        return true;
    }
    let mut k: usize = 0;
    while k <= hl - nl
        invariant
            0 < nl <= hl,
            hl == hay@.len(),
            nl == needle@.len(),
            0 <= k <= hl - nl + 1,
            forall|t: int|
                0 <= t < k ==> #[trigger] hay@.subrange(t, t + needle@.len()) != needle@,
        decreases hl - nl + 1 - k,
    {
        if match_at(hay, needle, k, hl, nl) {
            return true;
        }
        k = k + 1;
    }
    false
}

/// Prefix test: whether `s` begins with `pre`.
pub fn begins_with(s: &str, pre: &str) -> (r: bool)
    ensures
        r == head_matches(s@, pre@),
{
    let sl = s.unicode_len();
    let pl = pre.unicode_len();
    if pl > sl {
        return false;
    }
    match_at(s, pre, 0, sl, pl)
}

/// Character-wise string equality.
pub fn str_eq(a: &str, b: &str) -> (r: bool)
    ensures
        r == (a@ == b@),
{
    let al = a.unicode_len();
    let bl = b.unicode_len();
    if al != bl {
        return false;
    }
    let r = match_at(a, b, 0, al, bl);
    proof {
        if a@.subrange(0, bl as int) == b@ {
            assert(a@ =~= b@);
        }
        if a@ == b@ {
            assert(a@.subrange(0, bl as int) =~= b@);
        }
    }
    r
}

/// The first `n` characters of `s`, or all of `s` when it is shorter.
pub fn clip_chars(s: &str, n: usize) -> (r: String)
    ensures
        s@.len() <= n ==> r@ == s@,
        s@.len() > n ==> r@ == s@.subrange(0, n as int),
{
    let l = s.unicode_len();
    if l <= n {
        proof {
            assert(s@.subrange(0, s@.len() as int) =~= s@);
        }
        s.substring_char(0, l).to_owned()
    } else {
        s.substring_char(0, n).to_owned()
    }
}

/// The character of one decimal digit.
pub open spec fn digit_char(d: int) -> char {
    if d == 0 {
        '0'
    } else if d == 1 {
        '1'
    } else if d == 2 {
        '2'
    } else if d == 3 {
        '3'
    } else if d == 4 {
        '4'
    } else if d == 5 {
        '5'
    } else if d == 6 {
        '6'
    } else if d == 7 {
        '7'
    } else if d == 8 {
        '8'
    } else {
        '9'
    }
}

/// The decimal rendering of `n`, most significant digit first, without
/// leading zeros (except for `n == 0` itself).
pub open spec fn dec_chars(n: nat) -> Seq<char>
    decreases n,
{
    if n < 10 {
        seq![digit_char(n as int)]
    } else {
        dec_chars(n / 10).push(digit_char((n % 10) as int))
    }
}

fn digit_to_char(d: u8) -> (c: char)
    requires
        d < 10,
    ensures
        c == digit_char(d as int),
{
    match d {
        0 => '0',
        1 => '1',
        2 => '2',
        3 => '3',
        4 => '4',
        5 => '5',
        6 => '6',
        7 => '7',
        8 => '8',
        _ => '9',
    }
}

fn push_dec_chars(n: u64, out: &mut Vec<char>)
    ensures
        final(out)@ == old(out)@ + dec_chars(n as nat),
    decreases n,
{
    if n >= 10 {
        push_dec_chars(n / 10, out);
    }
    let d = (n % 10) as u8;
    out.push(digit_to_char(d));
    proof {
        if n < 10 {
            assert(old(out)@.push(digit_char((n % 10) as int)) =~= old(out)@ + dec_chars(
                n as nat,
            ));
        } else {
            assert((old(out)@ + dec_chars((n / 10) as nat)).push(
                digit_char((n % 10) as int),
            ) =~= old(out)@ + dec_chars(n as nat));
        }
    }
}

/// Render an integer in decimal.
pub fn u64_to_string(n: u64) -> (r: String)
    ensures
        r@ == dec_chars(n as nat),
{
    let mut v: Vec<char> = Vec::new();
    push_dec_chars(n, &mut v);
    proof {
        assert(v@ =~= dec_chars(n as nat));
    }
    chars_to_string(&v)
}

/// The value of one digit character, or 10 for anything else.
pub open spec fn digit_val(c: char) -> int {
    if c == '0' {
        0
    } else if c == '1' {
        1
    } else if c == '2' {
        2
    } else if c == '3' {
        3
    } else if c == '4' {
        4
    } else if c == '5' {
        5
    } else if c == '6' {
        6
    } else if c == '7' {
        7
    } else if c == '8' {
        8
    } else if c == '9' {
        9
    } else {
        10
    }
}

/// The number a digit string denotes, most significant digit first.
pub open spec fn chars_value(s: Seq<char>) -> int
    decreases s.len(),
{
    if s.len() == 0 {
        0
    } else {
        chars_value(s.drop_last()) * 10 + digit_val(s.last())
    }
}

/// A decimal rendering consists of digits and denotes the number it
/// renders.
pub proof fn lemma_dec_chars_value(n: nat)
    ensures
        chars_value(dec_chars(n)) == n,
        forall|j: int| 0 <= j < dec_chars(n).len() ==> digit_val(#[trigger] dec_chars(n)[j]) < 10,
    decreases n,
{
    if n < 10 {
        let s = dec_chars(n);
        assert(s.drop_last() =~= Seq::<char>::empty());
        assert(chars_value(Seq::<char>::empty()) == 0);
        assert(chars_value(s) == digit_val(s.last()));
        assert(digit_val(s.last()) == n);
    } else {
        lemma_dec_chars_value(n / 10);
        let whole = dec_chars(n);
        let head = dec_chars(n / 10);
        assert(whole == head.push(digit_char((n % 10) as int)));
        assert(whole.drop_last() =~= head);
        assert(chars_value(whole) == chars_value(head) * 10 + digit_val(whole.last()));
        assert(digit_val(whole.last()) == n % 10);
        assert(n == (n / 10) * 10 + n % 10) by (nonlinear_arith);
        assert forall|j: int| 0 <= j < whole.len() implies digit_val(#[trigger] whole[j])
            < 10 by {
            if j < head.len() {
                assert(whole[j] == head[j]);
            }
        }
    }
}

/// Values of digit strings never shrink as digits are appended.
pub proof fn lemma_chars_value_prefix(s: Seq<char>, i: int)
    requires
        0 <= i <= s.len(),
        forall|j: int| 0 <= j < s.len() ==> digit_val(#[trigger] s[j]) >= 0,
    ensures
        chars_value(s.subrange(0, i)) <= chars_value(s),
        chars_value(s.subrange(0, i)) >= 0,
    decreases s.len() - i,
{
    if i == s.len() {
        assert(s.subrange(0, i) =~= s);
        lemma_chars_value_nonneg(s);
    } else {
        lemma_chars_value_prefix(s, i + 1);
        let p = s.subrange(0, i);
        let q = s.subrange(0, i + 1);
        assert(q.drop_last() =~= p);
        assert(chars_value(q) == chars_value(p) * 10 + digit_val(s[i]));
        lemma_chars_value_nonneg(p);
    }
}

/// Values of digit strings are never negative.
proof fn lemma_chars_value_nonneg(s: Seq<char>)
    ensures
        chars_value(s) >= 0,
    decreases s.len(),
{
    if s.len() > 0 {
        lemma_chars_value_nonneg(s.drop_last());
    }
}

/// The value of one digit character, when it is one.
pub fn char_digit(c: char) -> (r: Option<u8>)
    ensures
        r matches Some(d) ==> digit_val(c) == d && d < 10,
        r is None ==> digit_val(c) == 10,
{
    match c {
        '0' => Some(0),
        '1' => Some(1),
        '2' => Some(2),
        '3' => Some(3),
        '4' => Some(4),
        '5' => Some(5),
        '6' => Some(6),
        '7' => Some(7),
        '8' => Some(8),
        '9' => Some(9),
        _ => None,
    }
}

/// Relies on collecting an iterator of `char`s into a `String`: the
/// resulting string holds exactly the given characters, in order.
#[verifier::external_body]
pub(crate) fn chars_to_string(v: &Vec<char>) -> (r: String)
    ensures
        r@ == v@,
{
    v.iter().collect()
}

/// The classification `char::is_whitespace` applies: a fixed property
/// of each character.
pub uninterp spec fn ws_char(c: char) -> bool;

/// Relies on `char::is_whitespace`: a fixed classification of the
/// character alone.
#[verifier::external_body]
pub(crate) fn is_ws(c: char) -> (r: bool)
    ensures
        r == ws_char(c),
{
    c.is_whitespace()
}

/// The leading characters satisfying `p` removed.
pub open spec fn drop_while_front(s: Seq<char>, p: spec_fn(char) -> bool) -> Seq<char>
    decreases s.len(),
{
    if s.len() > 0 && p(s[0]) {
        drop_while_front(s.drop_first(), p)
    } else {
        s
    }
}

/// The trailing characters satisfying `p` removed.
pub open spec fn drop_while_back(s: Seq<char>, p: spec_fn(char) -> bool) -> Seq<char>
    decreases s.len(),
{
    if s.len() > 0 && p(s.last()) {
        drop_while_back(s.drop_last(), p)
    } else {
        s
    }
}

/// Characters satisfying `p` removed from both ends.
pub open spec fn trim_by(s: Seq<char>, p: spec_fn(char) -> bool) -> Seq<char> {
    drop_while_back(drop_while_front(s, p), p)
}

/// The whitespace test, as one value.
pub open spec fn ws_pred() -> spec_fn(char) -> bool {
    |c: char| ws_char(c)
}

/// The test for one given character, as one value.
pub open spec fn ch_pred(c: char) -> spec_fn(char) -> bool {
    |x: char| x == c
}

/// What `str::trim` leaves: whitespace removed from both ends.
pub open spec fn spec_trim(s: Seq<char>) -> Seq<char> {
    trim_by(s, ws_pred())
}

/// What `str::trim_matches(c)` leaves: the character removed from both
/// ends.
pub open spec fn spec_strip_char(s: Seq<char>, c: char) -> Seq<char> {
    trim_by(s, ch_pred(c))
}

/// Dropping from the front stops at the first index whose character
/// fails the test.
proof fn lemma_drop_front_index(s: Seq<char>, p: spec_fn(char) -> bool, a: int)
    requires
        0 <= a <= s.len(),
        forall|j: int| 0 <= j < a ==> p(#[trigger] s[j]),
        a < s.len() ==> !p(s[a]),
    ensures
        drop_while_front(s, p) == s.subrange(a, s.len() as int),
    decreases a,
{
    if a == 0 {
        assert(s.subrange(0, s.len() as int) =~= s);
    } else {
        assert(p(s[0]));
        let t = s.drop_first();
        assert forall|j: int| 0 <= j < a - 1 implies p(#[trigger] t[j]) by {
            assert(t[j] == s[j + 1]);
        }
        lemma_drop_front_index(t, p, a - 1);
        assert(t.subrange(a - 1, t.len() as int) =~= s.subrange(a, s.len() as int));
    }
}

/// Dropping from the back stops just past the last index whose
/// character fails the test.
proof fn lemma_drop_back_index(s: Seq<char>, p: spec_fn(char) -> bool, b: int)
    requires
        0 <= b <= s.len(),
        forall|j: int| b <= j < s.len() ==> p(#[trigger] s[j]),
        b > 0 ==> !p(s[b - 1]),
    ensures
        drop_while_back(s, p) == s.subrange(0, b),
    decreases s.len(),
{
    if b == s.len() {
        if s.len() > 0 && p(s.last()) {
            assert(!p(s[b - 1]));
        }
        assert(s.subrange(0, b) =~= s);
    } else {
        assert(p(s.last()));
        let t = s.drop_last();
        assert forall|j: int| b <= j < t.len() implies p(#[trigger] t[j]) by {
            assert(t[j] == s[j]);
        }
        lemma_drop_back_index(t, p, b);
        assert(t.subrange(0, b) =~= s.subrange(0, b));
    }
}

/// The whitespace at the ends of `s`, removed — what `str::trim`
/// returns.
pub fn trim_ws(s: &str) -> (r: String)
    ensures
        r@ == spec_trim(s@),
{
    let n = s.unicode_len();
    let mut a: usize = 0;
    let mut stop = false;
    while !stop
        invariant
            n == s@.len(),
            0 <= a <= n,
            forall|j: int| 0 <= j < a ==> ws_char(#[trigger] s@[j]),
            stop ==> (a == n || !ws_char(s@[a as int])),
        decreases n - a + (if stop {
            0int
        } else {
            1int
        }),
    {
        if a == n {
            stop = true;
        } else if !is_ws(s.get_char(a)) {
            stop = true;
        } else {
            a = a + 1;
        }
    }
    let mut b: usize = n;
    let mut stop2 = false;
    while !stop2
        invariant
            n == s@.len(),
            0 <= a <= b <= n,
            forall|j: int| b <= j < n ==> ws_char(#[trigger] s@[j]),
            a < n ==> !ws_char(s@[a as int]),
            stop2 ==> (b == a || !ws_char(s@[b - 1])),
        decreases b - a + (if stop2 {
            0int
        } else {
            1int
        }),
    {
        if b == a {
            stop2 = true;
        } else if !is_ws(s.get_char(b - 1)) {
            stop2 = true;
        } else {
            b = b - 1;
        }
    }
    proof {
        lemma_drop_front_index(s@, ws_pred(), a as int);
        let t = s@.subrange(a as int, n as int);
        assert forall|j: int| (b - a) <= j < t.len() implies (ws_pred())(#[trigger] t[j]) by {
            assert(t[j] == s@[a + j]);
        }
        if b > a {
            assert(!(ws_pred())(t[b - a - 1]));
        }
        lemma_drop_back_index(t, ws_pred(), b - a);
        assert(t.subrange(0, b - a) =~= s@.subrange(a as int, b as int));
    }
    s.substring_char(a, b).to_owned()
}

/// The given character removed from both ends of `s` — what
/// `str::trim_matches(c)` returns.
pub fn strip_char_ends(s: &str, c: char) -> (r: String)
    ensures
        r@ == spec_strip_char(s@, c),
{
    let n = s.unicode_len();
    let mut a: usize = 0;
    let mut stop = false;
    while !stop
        invariant
            n == s@.len(),
            0 <= a <= n,
            forall|j: int| 0 <= j < a ==> (#[trigger] s@[j]) == c,
            stop ==> (a == n || s@[a as int] != c),
        decreases n - a + (if stop {
            0int
        } else {
            1int
        }),
    {
        if a == n {
            stop = true;
        } else if s.get_char(a) != c {
            stop = true;
        } else {
            a = a + 1;
        }
    }
    let mut b: usize = n;
    let mut stop2 = false;
    while !stop2
        invariant
            n == s@.len(),
            0 <= a <= b <= n,
            forall|j: int| b <= j < n ==> (#[trigger] s@[j]) == c,
            a < n ==> s@[a as int] != c,
            stop2 ==> (b == a || s@[b - 1] != c),
        decreases b - a + (if stop2 {
            0int
        } else {
            1int
        }),
    {
        if b == a {
            stop2 = true;
        } else if s.get_char(b - 1) != c {
            stop2 = true;
        } else {
            b = b - 1;
        }
    }
    proof {
        assert forall|j: int| 0 <= j < a implies (ch_pred(c))(#[trigger] s@[j]) by {}
        lemma_drop_front_index(s@, ch_pred(c), a as int);
        let t = s@.subrange(a as int, n as int);
        assert forall|j: int| (b - a) <= j < t.len() implies (ch_pred(c))(#[trigger] t[j]) by {
            assert(t[j] == s@[a + j]);
        }
        if b > a {
            assert(!(ch_pred(c))(t[b - a - 1]));
        }
        lemma_drop_back_index(t, ch_pred(c), b - a);
        assert(t.subrange(0, b - a) =~= s@.subrange(a as int, b as int));
    }
    s.substring_char(a, b).to_owned()
}

/// Position of the first occurrence of `pat` in `s`, if any.
pub open spec fn first_match(s: Seq<char>, pat: Seq<char>) -> Option<int>
    decreases s.len(),
{
    if s.len() < pat.len() {
        None
    } else if s.subrange(0, pat.len() as int) == pat {
        Some(0int)
    } else if s.len() == 0 {
        None
    } else {
        match first_match(s.drop_first(), pat) {
            Some(i) => Some(i + 1),
            None => None,
        }
    }
}

/// A position that matches, with none matching before it, is the first
/// match.
proof fn lemma_first_match_at(s: Seq<char>, pat: Seq<char>, k: int)
    requires
        0 <= k,
        k + pat.len() <= s.len(),
        s.subrange(k, k + pat.len()) == pat,
        forall|t: int| 0 <= t < k ==> #[trigger] s.subrange(t, t + pat.len()) != pat,
    ensures
        first_match(s, pat) == Some(k),
    decreases k,
{
    if k == 0 {
    } else {
        assert(s.subrange(0, 0 + pat.len() as int) != pat);
        assert(s.subrange(0, pat.len() as int) != pat);
        let d = s.drop_first();
        assert(d.subrange(k - 1, k - 1 + pat.len()) =~= s.subrange(k, k + pat.len()));
        assert forall|t: int| 0 <= t < k - 1 implies #[trigger] d.subrange(t, t + pat.len())
            != pat by {
            assert(d.subrange(t, t + pat.len()) =~= s.subrange(t + 1, t + 1 + pat.len()));
        }
        lemma_first_match_at(d, pat, k - 1);
    }
}

/// When no position matches, there is no first match.
proof fn lemma_first_match_none(s: Seq<char>, pat: Seq<char>)
    requires
        forall|t: int|
            0 <= t && t + pat.len() <= s.len() ==> #[trigger] s.subrange(t, t + pat.len()) != pat,
    ensures
        first_match(s, pat) is None,
    decreases s.len(),
{
    if s.len() >= pat.len() {
        assert(s.subrange(0, 0 + pat.len() as int) != pat);
        assert(s.subrange(0, pat.len() as int) != pat);
        if s.len() > 0 {
            let d = s.drop_first();
            assert forall|t: int|
                0 <= t && t + pat.len() <= d.len() implies #[trigger] d.subrange(
                t,
                t + pat.len(),
            ) != pat by {
                assert(d.subrange(t, t + pat.len()) =~= s.subrange(t + 1, t + 1 + pat.len()));
            }
            lemma_first_match_none(d, pat);
        }
    }
}

/// Find the first occurrence of `needle` in `hay`.
pub fn find_sub(hay: &str, needle: &str) -> (r: Option<usize>)
    ensures
        r matches Some(k) ==> first_match(hay@, needle@) == Some(k as int) && k + needle@.len()
            <= hay@.len(),
        r is None ==> first_match(hay@, needle@) is None,
{
    let hl = hay.unicode_len();
    let nl = needle.unicode_len();
    if nl > hl {
        proof {
            lemma_first_match_none(hay@, needle@);
        }
        return None;
    }
    if nl == 0 {
        proof {
            assert(hay@.subrange(0, 0 + needle@.len() as int) =~= needle@);
            lemma_first_match_at(hay@, needle@, 0);
        }
        return Some(0);
    }
    let mut k: usize = 0;
    while k <= hl - nl
        invariant
            0 < nl <= hl,
            hl == hay@.len(),
            nl == needle@.len(),
            0 <= k <= hl - nl + 1,
            forall|t: int|
                0 <= t < k ==> #[trigger] hay@.subrange(t, t + needle@.len()) != needle@,
        decreases hl - nl + 1 - k,
    {
        if match_at(hay, needle, k, hl, nl) {
            proof {
                lemma_first_match_at(hay@, needle@, k as int);
            }
            return Some(k);
        }
        k = k + 1;
    }
    proof {
        assert forall|t: int|
            0 <= t && t + needle@.len() <= hay@.len() implies #[trigger] hay@.subrange(
            t,
            t + needle@.len(),
        ) != needle@ by {}
        lemma_first_match_none(hay@, needle@);
    }
    None
}

/// Position of the first occurrence of the character, or the length
/// when it is absent.
pub open spec fn first_char_pos(s: Seq<char>, c: char) -> nat
    decreases s.len(),
{
    if s.len() == 0 {
        0nat
    } else if s[0] == c {
        0nat
    } else {
        1nat + first_char_pos(s.drop_first(), c)
    }
}

/// The first occurrence is the index with the character and nothing
/// matching before it; absence puts it at the length.
proof fn lemma_first_char_pos(s: Seq<char>, c: char, k: int)
    requires
        0 <= k <= s.len(),
        forall|j: int| 0 <= j < k ==> (#[trigger] s[j]) != c,
        k < s.len() ==> s[k] == c,
    ensures
        first_char_pos(s, c) == if k < s.len() {
            k
        } else {
            s.len() as int
        },
    decreases k,
{
    if s.len() == 0 {
    } else if k == 0 {
    } else {
        assert(s[0] != c);
        let d = s.drop_first();
        assert forall|j: int| 0 <= j < k - 1 implies (#[trigger] d[j]) != c by {
            assert(d[j] == s[j + 1]);
        }
        lemma_first_char_pos(d, c, k - 1);
    }
}

/// The pieces of `s` between occurrences of `c`, in order.  A string
/// without the character is one piece; each occurrence ends a piece.
pub open spec fn split_char(s: Seq<char>, c: char) -> Seq<Seq<char>>
    decreases s.len(),
{
    let i = first_char_pos(s, c);
    if i >= s.len() {
        seq![s]
    } else {
        seq![s.subrange(0, i as int)] + split_char(s.subrange(i as int + 1, s.len() as int), c)
    }
}

/// Split a string at every occurrence of the character.
pub fn split_on_char(s: &str, c: char) -> (r: Vec<String>)
    ensures
        r@.map_values(|x: String| x@) == split_char(s@, c),
{
    let mut out: Vec<String> = Vec::new();
    let mut rest: String = s.to_owned();
    let mut done = false;
    while !done
        invariant
            done ==> out@.map_values(|x: String| x@) == split_char(s@, c),
            !done ==> out@.map_values(|x: String| x@) + split_char(rest@, c) == split_char(
                s@,
                c,
            ),
        decreases rest@.len() + (if done {
            0int
        } else {
            1int
        }),
    {
        let n = rest.as_str().unicode_len();
        let mut i: usize = 0;
        let mut pos: usize = n;
        while i < n && pos == n
            invariant
                n == rest@.len(),
                0 <= i <= n,
                pos <= n,
                pos == n ==> forall|j: int| 0 <= j < i ==> (#[trigger] rest@[j]) != c,
                pos < n ==> rest@[pos as int] == c && (forall|j: int|
                    0 <= j < pos ==> (#[trigger] rest@[j]) != c),
            decreases n - i,
        {
            if rest.as_str().get_char(i) == c {
                pos = i;
            }
            i = i + 1;
        }
        let ghost before = out@;
        let ghost remv = rest@;
        if pos == n {
            proof {
                lemma_first_char_pos(rest@, c, n as int);
                assert(split_char(remv, c) == seq![remv]);
            }
            let mut tmp = String::new();
            core::mem::swap(&mut tmp, &mut rest);
            out.push(tmp);
            done = true;
            proof {
                assert(out@.map_values(|x: String| x@) =~= before.map_values(|x: String| x@)
                    + seq![remv]);
            }
        } else {
            proof {
                lemma_first_char_pos(rest@, c, pos as int);
            }
            let piece = rest.as_str().substring_char(0, pos).to_owned();
            let tail = rest.as_str().substring_char(pos + 1, n).to_owned();
            out.push(piece);
            rest = tail;
            proof {
                assert(split_char(remv, c) == seq![remv.subrange(0, pos as int)] + split_char(
                    remv.subrange(pos as int + 1, remv.len() as int),
                    c,
                ));
                assert(out@.map_values(|x: String| x@) =~= before.map_values(|x: String| x@)
                    + seq![remv.subrange(0, pos as int)]);
                assert(out@.map_values(|x: String| x@) + split_char(rest@, c)
                    =~= before.map_values(|x: String| x@) + split_char(remv, c));
            }
        }
    }
    out
}

/// The case folding `str::to_lowercase` applies: a fixed function of
/// the characters alone.
pub uninterp spec fn lower_chars(s: Seq<char>) -> Seq<char>;

/// Relies on `str::to_lowercase`: the result depends on the characters
/// of the input alone.
#[verifier::external_body]
pub(crate) fn lowercase(s: &str) -> (r: String)
    ensures
        r@ == lower_chars(s@),
{
    s.to_lowercase()
}

/// The classification `char::is_alphanumeric` applies: a fixed property
/// of each character.
pub uninterp spec fn alnum_char(c: char) -> bool;

/// Relies on `char::is_alphanumeric`: a fixed classification of the
/// character alone.
#[verifier::external_body]
pub(crate) fn is_alnum(c: char) -> (r: bool)
    ensures
        r == alnum_char(c),
{
    c.is_alphanumeric()
}

} // verus!
