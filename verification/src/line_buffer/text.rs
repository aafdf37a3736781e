use vstd::prelude::*;

use crate::utf8::{is_cont, Utf8Byte};
use vstd::utf8::{is_char_boundary, valid_utf8};

verus! {

// Characters in a byte buffer are found by their start bytes: every byte
// that is not a continuation byte begins a character, which runs up to
// the next start byte (or the end). On UTF-8 text these are exactly the
// characters of the text.

/// Byte `i` of `s` begins a character.
pub open spec fn starts_char(s: Seq<u8>, i: int) -> bool {
    0 <= i < s.len() && !is_cont(s[i])
}

/// Position of the `k`-th character start at or after byte `i`, or the
/// length of `s` when there are not that many.
pub open spec fn pos_from(s: Seq<u8>, i: int, k: nat) -> int
    decreases s.len() - i, k,
{
    if i >= s.len() || i < 0 {
        s.len() as int
    } else if starts_char(s, i) {
        if k == 0 {
            i
        } else {
            pos_from(s, i + 1, (k - 1) as nat)
        }
    } else {
        pos_from(s, i + 1, k)
    }
}

/// Byte position of character `k` of `s` (the length of `s` when `s`
/// has at most `k` characters).
pub open spec fn byte_pos(s: Seq<u8>, k: nat) -> int {
    pos_from(s, 0, k)
}

/// Number of characters starting at or after byte `i`.
pub open spec fn count_from(s: Seq<u8>, i: int) -> nat
    decreases s.len() - i,
{
    if i >= s.len() || i < 0 {
        0
    } else {
        count_from(s, i + 1) + if starts_char(s, i) {
            1nat
        } else {
            0nat
        }
    }
}

/// Number of characters in `s`.
pub open spec fn char_count(s: Seq<u8>) -> nat {
    count_from(s, 0)
}

/// Character `i` of `s` is a space.
pub open spec fn is_space_char(s: Seq<u8>, i: nat) -> bool {
    byte_pos(s, i) < s.len() && s[byte_pos(s, i)] == 0x20
}

/// The last character index below `m` that holds a space, or -1.
pub open spec fn last_space(s: Seq<u8>, m: int) -> int
    decreases m,
{
    if m <= 0 {
        -1
    } else if is_space_char(s, (m - 1) as nat) {
        m - 1
    } else {
        last_space(s, m - 1)
    }
}

/// The last space below `m` is a space, and no character after it and
/// below `m` is one.
pub proof fn lemma_last_space(s: Seq<u8>, m: int)
    ensures
        m <= 0 ==> last_space(s, m) == -1,
        m > 0 ==> -1 <= last_space(s, m) < m,
        last_space(s, m) >= 0 ==> is_space_char(s, last_space(s, m) as nat),
        forall|j: nat| last_space(s, m) < j < m ==> !#[trigger] is_space_char(s, j),
    decreases m,
{
    if m > 0 && !is_space_char(s, (m - 1) as nat) {
        lemma_last_space(s, m - 1);
    }
}

pub proof fn lemma_pos_from_bounds(s: Seq<u8>, i: int, k: nat)
    requires
        0 <= i <= s.len(),
    ensures
        i <= pos_from(s, i, k) <= s.len(),
        pos_from(s, i, k) < s.len() ==> starts_char(s, pos_from(s, i, k)),
    decreases s.len() - i, k,
{
    if i < s.len() {
        if starts_char(s, i) {
            if k > 0 {
                lemma_pos_from_bounds(s, i + 1, (k - 1) as nat);
            }
        } else {
            lemma_pos_from_bounds(s, i + 1, k);
        }
    }
}

/// The start after character `k`'s start is that of character `k + 1`.
pub proof fn lemma_pos_from_next(s: Seq<u8>, i: int, k: nat)
    requires
        0 <= i <= s.len(),
        pos_from(s, i, k) < s.len(),
    ensures
        pos_from(s, i, k + 1) == pos_from(s, pos_from(s, i, k) + 1, 0),
    decreases s.len() - i, k,
{
    if starts_char(s, i) {
        if k > 0 {
            lemma_pos_from_next(s, i + 1, (k - 1) as nat);
        }
    } else {
        lemma_pos_from_next(s, i + 1, k);
    }
}

/// Once the end is reached, later characters are at the end too.
pub proof fn lemma_pos_from_end(s: Seq<u8>, i: int, k: nat)
    requires
        0 <= i <= s.len(),
        pos_from(s, i, k) == s.len(),
    ensures
        pos_from(s, i, k + 1) == s.len(),
    decreases s.len() - i, k,
{
    if i < s.len() {
        if starts_char(s, i) {
            if k > 0 {
                lemma_pos_from_end(s, i + 1, (k - 1) as nat);
            }
        } else {
            lemma_pos_from_end(s, i + 1, k);
        }
    }
}

/// Character positions grow with the character index.
pub proof fn lemma_pos_from_mono(s: Seq<u8>, i: int, j: nat, k: nat)
    requires
        0 <= i <= s.len(),
        j <= k,
    ensures
        pos_from(s, i, j) <= pos_from(s, i, k),
        pos_from(s, i, j) == s.len() ==> pos_from(s, i, k) == s.len(),
        j < k && pos_from(s, i, j) < s.len() ==> pos_from(s, i, j) < pos_from(s, i, k),
    decreases s.len() - i, k,
{
    lemma_pos_from_bounds(s, i, j);
    lemma_pos_from_bounds(s, i, k);
    if i < s.len() {
        if starts_char(s, i) {
            if j > 0 {
                lemma_pos_from_mono(s, i + 1, (j - 1) as nat, (k - 1) as nat);
            } else if k > 0 {
                lemma_pos_from_bounds(s, i + 1, (k - 1) as nat);
            }
        } else {
            lemma_pos_from_mono(s, i + 1, j, k);
        }
    }
}

/// Character `k` (counted from byte `i`) exists exactly when `k` is
/// below the number of characters there.
pub proof fn lemma_pos_from_count(s: Seq<u8>, i: int, k: nat)
    requires
        0 <= i <= s.len(),
    ensures
        pos_from(s, i, k) < s.len() <==> k < count_from(s, i),
    decreases s.len() - i, k,
{
    if i < s.len() {
        if starts_char(s, i) {
            if k > 0 {
                lemma_pos_from_count(s, i + 1, (k - 1) as nat);
            }
        } else {
            lemma_pos_from_count(s, i + 1, k);
        }
    }
}

pub proof fn lemma_count_from_bound(s: Seq<u8>, i: int)
    requires
        0 <= i <= s.len(),
    ensures
        count_from(s, i) <= s.len() - i,
    decreases s.len() - i,
{
    if i < s.len() {
        lemma_count_from_bound(s, i + 1);
    }
}

/// Counting from `i`, the characters before the position of character
/// `k` are `k` of them, or all of them when there are fewer.
proof fn lemma_count_before_pos(s: Seq<u8>, i: int, k: nat)
    requires
        0 <= i <= s.len(),
    ensures
        pos_from(s, i, k) <= s.len(),
        count_from(s, i) - count_from(s, pos_from(s, i, k)) == if k <= count_from(s, i) {
            k
        } else {
            count_from(s, i)
        },
    decreases s.len() - i, k,
{
    lemma_pos_from_bounds(s, i, k);
    if i < s.len() {
        if starts_char(s, i) {
            if k > 0 {
                lemma_count_before_pos(s, i + 1, (k - 1) as nat);
            }
        } else {
            lemma_count_before_pos(s, i + 1, k);
        }
    }
}

/// Two byte sequences that agree before `p` and both have a character
/// starting at `p` place the characters before `p` alike.
proof fn lemma_pos_shared_prefix(s1: Seq<u8>, s2: Seq<u8>, p: int, i: int, j: nat)
    requires
        0 <= i <= p <= s1.len(),
        p < s2.len(),
        forall|x: int| 0 <= x < p ==> s1[x] == s2[x],
        starts_char(s2, p),
        pos_from(s1, i, j) == p,
        p < s1.len() ==> starts_char(s1, p),
        count_from(s1, i) - count_from(s1, p) == j,
    ensures
        pos_from(s2, i, j) == p,
    decreases p - i,
{
    if i < p {
        if starts_char(s1, i) {
            assert(starts_char(s2, i));
            if j == 0 {
                assert(pos_from(s1, i, j) == i);
            } else {
                lemma_pos_shared_prefix(s1, s2, p, i + 1, (j - 1) as nat);
            }
        } else {
            assert(!starts_char(s2, i));
            lemma_pos_shared_prefix(s1, s2, p, i + 1, j);
        }
    }
}

/// The next start from `i` is `j` when the bytes in between continue a
/// character and `j` starts one or is the end.
proof fn lemma_next_start(s: Seq<u8>, i: int, j: int)
    requires
        0 <= i <= j <= s.len(),
        forall|x: int| i <= x < j ==> is_cont(#[trigger] s[x]),
        j < s.len() ==> starts_char(s, j),
    ensures
        pos_from(s, i, 0) == j,
    decreases j - i,
{
    if i < j {
        lemma_next_start(s, i + 1, j);
    }
}

/// The bytes before the first character start only continue a
/// character.
proof fn lemma_conts_before_start(s: Seq<u8>, i: int)
    requires
        0 <= i <= s.len(),
    ensures
        forall|x: int| i <= x < pos_from(s, i, 0) ==> is_cont(#[trigger] s[x]),
    decreases s.len() - i,
{
    if i < s.len() && !starts_char(s, i) {
        lemma_conts_before_start(s, i + 1);
    }
}

/// The characters of two byte strings put together are those of each.
pub proof fn lemma_count_concat(x: Seq<u8>, y: Seq<u8>)
    ensures
        char_count(x + y) == char_count(x) + char_count(y),
{
    let z = x + y;
    let n = x.len() as int;
    lemma_count_prefix(z, n, 0);
    lemma_count_suffix(z, n, n);
    assert(z.subrange(0, n) =~= x);
    assert(z.subrange(n, z.len() as int) =~= y);
}

/// With characters `k - 1` and `k` of `s` traded (bytes `p..q` and
/// `q..r`), character `k - 1` of the result starts at `p`, character `k`
/// right after the moved character, and character `k + 1` at `r`.
pub proof fn lemma_traded_positions(s: Seq<u8>, k: nat)
    requires
        0 < k < char_count(s),
    ensures
        ({
            let p = byte_pos(s, (k - 1) as nat);
            let q = byte_pos(s, k);
            let r = byte_pos(s, k + 1);
            let t = s.subrange(0, p) + s.subrange(q, r) + s.subrange(p, q) + s.subrange(
                r,
                s.len() as int,
            );
            &&& 0 <= p < q < r <= s.len()
            &&& byte_pos(t, (k - 1) as nat) == p
            &&& byte_pos(t, k) == p + (r - q)
            &&& byte_pos(t, k + 1) == r
        }),
{
    let km = (k - 1) as nat;
    let p = byte_pos(s, km);
    let q = byte_pos(s, k);
    let r = byte_pos(s, k + 1);
    let n = s.len() as int;
    lemma_pos_from_count(s, 0, km);
    lemma_pos_from_count(s, 0, k);
    lemma_pos_from_bounds(s, 0, km);
    lemma_pos_from_bounds(s, 0, k);
    lemma_pos_from_bounds(s, 0, k + 1);
    lemma_pos_from_mono(s, 0, km, k);
    lemma_pos_from_mono(s, 0, k, k + 1);
    // the bytes inside each character continue it
    lemma_pos_from_next(s, 0, km);
    lemma_pos_from_next(s, 0, k);
    assert(km + 1 == k);
    lemma_conts_before_start(s, p + 1);
    lemma_conts_before_start(s, q + 1);
    let d = r - q;
    let t = s.subrange(0, p) + s.subrange(q, r) + s.subrange(p, q) + s.subrange(r, n);
    assert(t.len() == n);
    assert forall|x: int| 0 <= x < p implies t[x] == s[x] by {}
    assert forall|x: int| p <= x < p + d implies t[x] == s[q + x - p] by {}
    assert forall|x: int| p + d <= x < r implies t[x] == s[p + x - p - d] by {}
    assert forall|x: int| r <= x < n implies t[x] == s[x] by {}
    // character k - 1 of t
    lemma_count_before_pos(s, 0, km);
    lemma_count_from_bound(s, 0);
    assert(starts_char(t, p));
    lemma_pos_shared_prefix(s, t, p, 0, km);
    // character k of t
    lemma_pos_from_next(t, 0, km);
    assert forall|x: int| p + 1 <= x < p + d implies is_cont(#[trigger] t[x]) by {
        assert(t[x] == s[q + x - p]);
    }
    assert(starts_char(t, p + d)) by {
        assert(t[p + d] == s[p]);
    }
    lemma_next_start(t, p + 1, p + d);
    // character k + 1 of t
    lemma_pos_from_next(t, 0, k);
    assert forall|x: int| p + d + 1 <= x < r implies is_cont(#[trigger] t[x]) by {
        assert(t[x] == s[p + x - p - d]);
    }
    assert(r < n ==> starts_char(t, r)) by {
        if r < n {
            assert(t[r] == s[r]);
        }
    }
    lemma_next_start(t, p + d + 1, r);
}

/// Law: keeping only the bytes before the first character start (what
/// truncating a line does) leaves nothing on a line of valid UTF-8, and
/// doing it again changes nothing.
pub proof fn lemma_truncated(s: Seq<u8>)
    ensures
        ({
            let e = s.subrange(0, byte_pos(s, 0));
            &&& e.subrange(0, byte_pos(e, 0)) == e
            &&& valid_utf8(s) ==> e.len() == 0
        }),
{
    lemma_pos_from_bounds(s, 0, 0);
    lemma_conts_before_start(s, 0);
    let e = s.subrange(0, byte_pos(s, 0));
    assert forall|x: int| 0 <= x < e.len() implies is_cont(#[trigger] e[x]) by {
        assert(e[x] == s[x]);
    }
    lemma_next_start(e, 0, e.len() as int);
    assert(e.subrange(0, e.len() as int) =~= e);
    if valid_utf8(s) && s.len() > 0 {
        vstd::utf8::is_char_boundary_start_end_of_seq(s);
        vstd::utf8::is_char_boundary_iff_not_is_continuation_byte(s, 0);
    }
}

/// Counting in the bytes before `p` counts the characters that start
/// there.
pub proof fn lemma_count_prefix(s: Seq<u8>, p: int, i: int)
    requires
        0 <= i <= p <= s.len(),
    ensures
        count_from(s.subrange(0, p), i) == count_from(s, i) - count_from(s, p),
    decreases p - i,
{
    if i < p {
        lemma_count_prefix(s, p, i + 1);
        assert(s.subrange(0, p)[i] == s[i]);
    }
}

/// Counting in the bytes from `p` on counts the characters that start
/// there.
pub proof fn lemma_count_suffix(s: Seq<u8>, p: int, i: int)
    requires
        0 <= p <= i <= s.len(),
    ensures
        count_from(s.subrange(p, s.len() as int), i - p) == count_from(s, i),
    decreases s.len() - i,
{
    if i < s.len() {
        lemma_count_suffix(s, p, i + 1);
        assert(s.subrange(p, s.len() as int)[i - p] == s[i]);
    }
}

/// Splitting at the start of character `k` (at most the number of
/// characters) leaves `k` characters before and the rest after.
pub proof fn lemma_split_at_char(s: Seq<u8>, k: nat)
    requires
        k <= char_count(s),
    ensures
        0 <= byte_pos(s, k) <= s.len(),
        char_count(s.subrange(0, byte_pos(s, k))) == k,
        char_count(s.subrange(byte_pos(s, k), s.len() as int)) == char_count(s) - k,
{
    let p = byte_pos(s, k);
    lemma_count_before_pos(s, 0, k);
    lemma_pos_from_bounds(s, 0, k);
    lemma_count_prefix(s, p, 0);
    lemma_count_suffix(s, p, p);
}

/// `p` is where a character starts, or the end of `s`.
pub open spec fn at_char(s: Seq<u8>, p: int) -> bool {
    p == s.len() || starts_char(s, p)
}

/// In valid UTF-8, a position is where a character starts exactly when
/// it is a character boundary.
proof fn lemma_at_char_boundary(s: Seq<u8>, p: int)
    requires
        valid_utf8(s),
        0 <= p <= s.len(),
    ensures
        at_char(s, p) || p == 0 <==> is_char_boundary(s, p),
{
    vstd::utf8::is_char_boundary_start_end_of_seq(s);
    if p < s.len() {
        vstd::utf8::is_char_boundary_iff_not_is_continuation_byte(s, p);
    }
}

/// The bytes of valid UTF-8 between two character starts are valid
/// UTF-8.
pub proof fn lemma_valid_range(s: Seq<u8>, x: int, y: int)
    requires
        valid_utf8(s),
        0 <= x <= y <= s.len(),
        at_char(s, x) || x == 0,
        at_char(s, y) || y == 0,
    ensures
        valid_utf8(s.subrange(x, y)),
{
    lemma_at_char_boundary(s, x);
    vstd::utf8::valid_utf8_split(s, x);
    let t = s.subrange(x, s.len() as int);
    if y < s.len() && y > 0 {
        assert(t[y - x] == s[y]);
    }
    lemma_at_char_boundary(t, y - x);
    if y == 0 {
        vstd::utf8::is_char_boundary_start_end_of_seq(t);
    }
    vstd::utf8::valid_utf8_split(t, y - x);
    assert(t.subrange(0, y - x) =~= s.subrange(x, y));
}

/// The start of character `k` is where a character starts, or the end.
pub proof fn lemma_byte_pos_at_char(s: Seq<u8>, k: nat)
    ensures
        at_char(s, byte_pos(s, k)),
        0 <= byte_pos(s, k) <= s.len(),
{
    lemma_pos_from_bounds(s, 0, k);
}

/// Number of characters in `s`.
pub fn count_chars(s: &[u8]) -> (n: usize)
    ensures
        n == char_count(s@),
{
    let mut i = s.len();
    let mut n: usize = 0;
    proof {
        lemma_count_from_bound(s@, 0);
    }
    while i > 0
        invariant
            i <= s@.len(),
            n == count_from(s@, i as int),
            count_from(s@, 0) <= s@.len(),
        decreases i,
    {
        i -= 1;
        proof {
            lemma_count_from_bound(s@, i as int);
        }
        if !s[i].utf8_is_continuation() {
            n += 1;
        }
    }
    n
}

/// Byte position of character `char_pos` of `s`, or the length of `s`
/// when there is no such character.
pub fn byte_position(s: &[u8], char_pos: usize) -> (p: usize)
    ensures
        p == byte_pos(s@, char_pos as nat),
{
    let mut i: usize = 0;
    let mut seen: usize = 0;
    while i < s.len()
        invariant
            0 <= i <= s@.len(),
            seen <= char_pos,
            byte_pos(s@, char_pos as nat) == pos_from(s@, i as int, (char_pos - seen) as nat),
        decreases s@.len() - i,
    {
        if !s[i].utf8_is_continuation() {
            if seen == char_pos {
                return i;
            }
            seen += 1;
        }
        i += 1;
    }
    s.len()
}

/// Law: inserting the encoding `c` of one character at character `k`
/// (at most the number of characters) makes it character `k`, whose bytes
/// are exactly `c`, so deleting character `k` afterwards gives back the
/// bytes it started from.
pub proof fn lemma_insert_then_delete(s: Seq<u8>, k: nat, c: Seq<u8>)
    requires
        c.len() >= 1,
        !is_cont(c[0]),
        forall|x: int| 1 <= x < c.len() ==> is_cont(#[trigger] c[x]),
        k <= char_count(s),
    ensures
        ({
            let p = byte_pos(s, k);
            let t = s.subrange(0, p) + c + s.subrange(p, s.len() as int);
            &&& byte_pos(t, k) == p
            &&& byte_pos(t, k + 1) == p + c.len()
            &&& t.subrange(0, p) + t.subrange(p + c.len(), t.len() as int) == s
        }),
{
    let p = byte_pos(s, k);
    lemma_count_before_pos(s, 0, k);
    lemma_pos_from_bounds(s, 0, k);
    let t = s.subrange(0, p) + c + s.subrange(p, s.len() as int);
    assert(t[p] == c[0]);
    lemma_pos_shared_prefix(s, t, p, 0, k);
    assert forall|x: int| p + 1 <= x < p + c.len() implies is_cont(#[trigger] t[x]) by {
        assert(t[x] == c[x - p]);
    };
    if p < s.len() {
        assert(t[p + c.len()] == s[p]);
    }
    lemma_next_start(t, p + 1, p + c.len());
    lemma_pos_from_next(t, 0, k);
    assert(t.subrange(0, p) + t.subrange(p + c.len(), t.len() as int) =~= s);
}

} // verus!
