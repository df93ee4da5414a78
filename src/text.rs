//! Character-level operations on strings: equality, containment, ordering,
//! and fixed-width decimal keys.
use vstd::prelude::*;

verus! {

/// `needle` occurs as a contiguous run inside `hay`.
pub open spec fn is_substring(hay: Seq<char>, needle: Seq<char>) -> bool {
    exists|i: int| 0 <= i <= hay.len() - needle.len() && #[trigger] hay.subrange(i, i + needle.len()) == needle
}

/// `a` sorts strictly before `b` when strings are compared character by
/// character (code point order, which is also the order of their UTF-8 bytes).
pub open spec fn seq_lt(a: Seq<char>, b: Seq<char>) -> bool {
    exists|i: int|
        0 <= i <= a.len() && i <= b.len() && a.subrange(0, i) == b.subrange(0, i) && #[trigger] lt_at(a, b, i)
}

/// At position `i` (after an equal prefix) `a` is the smaller one.
pub open spec fn lt_at(a: Seq<char>, b: Seq<char>, i: int) -> bool {
    (i == a.len() && i < b.len()) || (i < a.len() && i < b.len() && a[i] < b[i])
}

/// The two strings hold the same characters.
pub fn str_eq(a: &str, b: &str) -> (r: bool)
    ensures
        r == (a@ == b@),
{
    let n = a.unicode_len();
    let m = b.unicode_len();
    if n != m {
        return false;
    }
    let mut i: usize = 0;
    while i < n
        invariant
            n == a@.len(),
            m == b@.len(),
            n == m,
            i <= n,
            forall|k: int| 0 <= k < i ==> a@[k] == b@[k],
        decreases n - i,
    {
        if a.get_char(i) != b.get_char(i) {
            return false;
        }
        i = i + 1;
    }
    assert(a@ =~= b@);
    true
}

/// Whether `needle` occurs inside `hay`.
pub fn str_contains(hay: &str, needle: &str) -> (r: bool)
    ensures
        r == is_substring(hay@, needle@),
{
    let n = hay.unicode_len();
    let m = needle.unicode_len();
    if m > n {
        return false;
    }
    let mut start: usize = 0;
    while start <= n - m
        invariant
            n == hay@.len(),
            m == needle@.len(),
            m <= n,
            start <= n - m + 1,
            forall|s: int| 0 <= s < start ==> #[trigger] hay@.subrange(s, s + m) != needle@,
        decreases n - m + 1 - start,
    {
        let mut j: usize = 0;
        let mut same = true;
        while j < m
            invariant
                n == hay@.len(),
                m == needle@.len(),
                start + m <= n,
                j <= m,
                same == (forall|k: int| 0 <= k < j ==> hay@[start + k] == needle@[k]),
            decreases m - j,
        {
            if hay.get_char(start + j) != needle.get_char(j) {
                same = false;
            }
            j = j + 1;
        }
        if same {
            assert(hay@.subrange(start as int, start + m) =~= needle@);
            return true;
        }
        assert(hay@.subrange(start as int, start + m) != needle@) by {
            let k = choose|k: int| 0 <= k < m && hay@[start + k] != needle@[k];
            assert(hay@.subrange(start as int, start + m)[k] == hay@[start + k]);
        }
        start = start + 1;
    }
    false
}

/// Whether `a` sorts strictly before `b`.
pub fn str_lt(a: &str, b: &str) -> (r: bool)
    ensures
        r == seq_lt(a@, b@),
{
    let n = a.unicode_len();
    let m = b.unicode_len();
    let mut i: usize = 0;
    while i < n && i < m
        invariant
            n == a@.len(),
            m == b@.len(),
            i <= n,
            i <= m,
            a@.subrange(0, i as int) == b@.subrange(0, i as int),
        decreases n - i,
    {
        let x = a.get_char(i);
        let y = b.get_char(i);
        if x != y {
            let r = x < y;
            proof {
                assert(lt_at(a@, b@, i as int) == r);
                if !r {
                    assert forall|k: int|
                        0 <= k <= a@.len() && k <= b@.len() && a@.subrange(0, k) == b@.subrange(0, k) implies !lt_at(
                        a@,
                        b@,
                        k,
                    ) by {
                        if k > i {
                            assert(a@.subrange(0, k)[i as int] == b@.subrange(0, k)[i as int]);
                        } else if k < i {
                            assert(a@.subrange(0, i as int)[k] == b@.subrange(0, i as int)[k]);
                        }
                    }
                }
            }
            return r;
        }
        assert(a@.subrange(0, i + 1) =~= a@.subrange(0, i as int).push(x));
        assert(b@.subrange(0, i + 1) =~= b@.subrange(0, i as int).push(y));
        i = i + 1;
    }
    let r = i == n && i < m;
    proof {
        assert(lt_at(a@, b@, i as int) == r);
        if !r {
            assert forall|k: int|
                0 <= k <= a@.len() && k <= b@.len() && a@.subrange(0, k) == b@.subrange(0, k) implies !lt_at(
                a@,
                b@,
                k,
            ) by {
                if k < i {
                    assert(a@.subrange(0, i as int)[k] == b@.subrange(0, i as int)[k]);
                }
            }
        }
    }
    r
}

/// The decimal digit character for `d` (below ten).
pub open spec fn digit_char(d: nat) -> char {
    if d == 0 {
        '0'
    } else if d == 1 {
        '1'
    } else if d == 2 {
        '2'
    } else if d == 3 {
        '3'
    } else if d == 4 {
        '4'
    } else if d == 5 {
        '5'
    } else if d == 6 {
        '6'
    } else if d == 7 {
        '7'
    } else if d == 8 {
        '8'
    } else {
        '9'
    }
}

/// The last `width` decimal digits of `n`, most significant first, padded
/// with zeros on the left.
pub open spec fn padded_decimal(n: nat, width: nat) -> Seq<char>
    decreases width,
{
    if width == 0 {
        Seq::empty()
    } else {
        padded_decimal(n / 10, (width - 1) as nat).push(digit_char(n % 10))
    }
}

/// Width of a sequence key: enough for every `u64`.
pub const KEY_WIDTH: usize = 20;

fn digit_str(d: u64) -> (r: &'static str)
    requires
        d < 10,
    ensures
        r@ == seq![digit_char(d as nat)],
{
    proof {
        reveal_strlit("0");
        reveal_strlit("1");
        reveal_strlit("2");
        reveal_strlit("3");
        reveal_strlit("4");
        reveal_strlit("5");
        reveal_strlit("6");
        reveal_strlit("7");
        reveal_strlit("8");
        reveal_strlit("9");
    }
    let r = if d == 0 {
        "0"
    } else if d == 1 {
        "1"
    } else if d == 2 {
        "2"
    } else if d == 3 {
        "3"
    } else if d == 4 {
        "4"
    } else if d == 5 {
        "5"
    } else if d == 6 {
        "6"
    } else if d == 7 {
        "7"
    } else if d == 8 {
        "8"
    } else {
        "9"
    };
    assert(r@ =~= seq![digit_char(d as nat)]);
    r
}

/// The storage key of sequence number `n`: its decimal form padded with zeros
/// to a fixed width, so that key order and numeric order agree.
pub fn sequence_key(n: u64) -> (r: String)
    ensures
        r@ == padded_decimal(n as nat, KEY_WIDTH as nat),
{
    // digits[k] is the k-th digit counted from the least significant end
    let mut digits: Vec<u64> = Vec::new();
    let mut rest: u64 = n;
    let mut k: usize = 0;
    while k < KEY_WIDTH
        invariant
            k <= KEY_WIDTH,
            digits.len() == k,
            forall|j: int| 0 <= j < k ==> digits[j] < 10,
            padded_decimal(n as nat, KEY_WIDTH as nat) == padded_decimal(rest as nat, (KEY_WIDTH - k) as nat)
                + digits_text(digits@, k as int),
        decreases KEY_WIDTH - k,
    {
        let d = rest % 10;
        proof {
            let w = (KEY_WIDTH - k) as nat;
            assert(padded_decimal(rest as nat, w) == padded_decimal((rest / 10) as nat, (w - 1) as nat).push(
                digit_char(d as nat),
            ));
            assert(digits_text(digits@.push(d), k + 1) =~= seq![digit_char(d as nat)] + digits_text(digits@, k as int)) by {
                lemma_digits_text_push(digits@, d, k as int);
            }
            assert(padded_decimal((rest / 10) as nat, (w - 1) as nat).push(digit_char(d as nat)) =~= padded_decimal(
                (rest / 10) as nat,
                (w - 1) as nat,
            ) + seq![digit_char(d as nat)]);
        }
        digits.push(d);
        rest = rest / 10;
        k = k + 1;
    }
    let mut r = String::new();
    let mut i: usize = KEY_WIDTH;
    assert(padded_decimal(rest as nat, 0) =~= Seq::<char>::empty());
    assert(r@ =~= Seq::<char>::empty());
    while i > 0
        invariant
            i <= KEY_WIDTH,
            digits.len() == KEY_WIDTH,
            forall|j: int| 0 <= j < KEY_WIDTH ==> digits[j] < 10,
            r@ + digits_text(digits@, i as int) == padded_decimal(n as nat, KEY_WIDTH as nat),
        decreases i,
    {
        let d = digits[i - 1];
        let ds = digit_str(d);
        proof {
            lemma_digits_text_split(digits@, i as int);
        }
        r.append(ds);
        i = i - 1;
        assert(r@ + digits_text(digits@, i as int) =~= padded_decimal(n as nat, KEY_WIDTH as nat));
    }
    r
}

/// The characters of the first `k` digits (least significant first in
/// `digits`), written most significant first.
pub open spec fn digits_text(digits: Seq<u64>, k: int) -> Seq<char>
    decreases k,
{
    if k <= 0 {
        Seq::empty()
    } else {
        seq![digit_char(digits[k - 1] as nat)] + digits_text(digits, k - 1)
    }
}

proof fn lemma_digits_text_push(digits: Seq<u64>, d: u64, k: int)
    requires
        0 <= k == digits.len(),
    ensures
        digits_text(digits.push(d), k + 1) == seq![digit_char(d as nat)] + digits_text(digits, k),
{
    lemma_digits_text_prefix(digits, digits.push(d), k);
}

proof fn lemma_digits_text_prefix(a: Seq<u64>, b: Seq<u64>, k: int)
    requires
        0 <= k <= a.len(),
        k <= b.len(),
        forall|j: int| 0 <= j < k ==> a[j] == b[j],
    ensures
        digits_text(a, k) == digits_text(b, k),
    decreases k,
{
    if k > 0 {
        lemma_digits_text_prefix(a, b, k - 1);
    }
}

proof fn lemma_digits_text_split(digits: Seq<u64>, i: int)
    requires
        0 < i <= digits.len(),
    ensures
        digits_text(digits, i) == seq![digit_char(digits[i - 1] as nat)] + digits_text(digits, i - 1),
{
}

} // verus!

verus! {

pub open spec fn pow10(w: nat) -> nat
    decreases w,
{
    if w == 0 {
        1
    } else {
        10 * pow10((w - 1) as nat)
    }
}

proof fn lemma_digit_char_order(x: nat, y: nat)
    requires
        x < y < 10,
    ensures
        digit_char(x) < digit_char(y),
{
}

proof fn lemma_padded_len(n: nat, w: nat)
    ensures
        padded_decimal(n, w).len() == w,
    decreases w,
{
    if w > 0 {
        lemma_padded_len(n / 10, (w - 1) as nat);
    }
}

/// Keys of equal width sort as their numbers do.
pub proof fn lemma_padded_order(a: nat, b: nat, w: nat)
    requires
        a < b < pow10(w),
    ensures
        seq_lt(padded_decimal(a, w), padded_decimal(b, w)),
    decreases w,
{
    let w1 = (w - 1) as nat;
    assert(w > 0);
    let pa = padded_decimal(a / 10, w1);
    let pb = padded_decimal(b / 10, w1);
    lemma_padded_len(a / 10, w1);
    lemma_padded_len(b / 10, w1);
    let sa = pa.push(digit_char(a % 10));
    let sb = pb.push(digit_char(b % 10));
    assert(padded_decimal(a, w) == sa);
    assert(padded_decimal(b, w) == sb);
    assert(a / 10 <= b / 10) by (nonlinear_arith)
        requires
            a < b,
    ;
    assert(b / 10 < pow10(w1)) by (nonlinear_arith)
        requires
            b < pow10(w),
            pow10(w) == 10 * pow10(w1),
    ;
    if a / 10 < b / 10 {
        lemma_padded_order(a / 10, b / 10, w1);
        let i = choose|i: int|
            0 <= i <= pa.len() && i <= pb.len() && pa.subrange(0, i) == pb.subrange(0, i) && #[trigger] lt_at(pa, pb, i);
        assert(i < pa.len());
        assert(sa.subrange(0, i) =~= pa.subrange(0, i));
        assert(sb.subrange(0, i) =~= pb.subrange(0, i));
        assert(lt_at(sa, sb, i));
    } else {
        assert(a % 10 < b % 10) by (nonlinear_arith)
            requires
                a < b,
                a / 10 == b / 10,
        ;
        lemma_digit_char_order(a % 10, b % 10);
        let i = w1 as int;
        assert(sa.subrange(0, i) =~= pa);
        assert(sb.subrange(0, i) =~= pb);
        assert(lt_at(sa, sb, i));
    }
}

/// Sequence keys sort, as text, in the order of their sequence numbers.
pub proof fn lemma_sequence_key_order(a: u64, b: u64)
    requires
        a < b,
    ensures
        seq_lt(padded_decimal(a as nat, KEY_WIDTH as nat), padded_decimal(b as nat, KEY_WIDTH as nat)),
{
    reveal_with_fuel(pow10, 21);
    assert(pow10(20) == 100000000000000000000nat);
    lemma_padded_order(a as nat, b as nat, 20);
}

} // verus!

verus! {

/// No text sorts before itself.
pub proof fn lemma_lt_irreflexive(a: Seq<char>)
    ensures
        !seq_lt(a, a),
{
}

proof fn lemma_first_difference(a: Seq<char>, b: Seq<char>, i: int)
    requires
        0 <= i <= a.len(),
        i <= b.len(),
        a.subrange(0, i) == b.subrange(0, i),
        a != b,
    ensures
        seq_lt(a, b) || seq_lt(b, a),
    decreases a.len() - i,
{
    if i == a.len() && i == b.len() {
        assert(a =~= a.subrange(0, i));
        assert(b =~= b.subrange(0, i));
    } else if i == a.len() {
        assert(lt_at(a, b, i));
    } else if i == b.len() {
        assert(lt_at(b, a, i));
    } else if a[i] != b[i] {
        if a[i] < b[i] {
            assert(lt_at(a, b, i));
        } else {
            assert(lt_at(b, a, i));
        }
    } else {
        assert(a.subrange(0, i + 1) =~= a.subrange(0, i).push(a[i]));
        assert(b.subrange(0, i + 1) =~= b.subrange(0, i).push(b[i]));
        lemma_first_difference(a, b, i + 1);
    }
}

/// Two different texts are ordered one way or the other.
pub proof fn lemma_lt_total(a: Seq<char>, b: Seq<char>)
    requires
        a != b,
    ensures
        seq_lt(a, b) || seq_lt(b, a),
{
    assert(a.subrange(0, 0) =~= b.subrange(0, 0));
    lemma_first_difference(a, b, 0);
}

/// The order on texts is transitive.
pub proof fn lemma_lt_transitive(a: Seq<char>, b: Seq<char>, c: Seq<char>)
    requires
        seq_lt(a, b),
        seq_lt(b, c),
    ensures
        seq_lt(a, c),
{
    let i = choose|i: int| 0 <= i <= a.len() && i <= b.len() && a.subrange(0, i) == b.subrange(0, i) && #[trigger] lt_at(a, b, i);
    let j = choose|j: int| 0 <= j <= b.len() && j <= c.len() && b.subrange(0, j) == c.subrange(0, j) && #[trigger] lt_at(b, c, j);
    if i < j {
        assert(c.subrange(0, i) =~= b.subrange(0, i)) by {
            assert forall|k: int| 0 <= k < i implies c[k] == b[k] by {
                assert(c.subrange(0, j)[k] == b.subrange(0, j)[k]);
            }
        }
        if i < b.len() {
            assert(b.subrange(0, j)[i] == c.subrange(0, j)[i]);
        }
        assert(lt_at(a, c, i));
    } else if j < i {
        assert(a.subrange(0, j) =~= c.subrange(0, j)) by {
            assert forall|k: int| 0 <= k < j implies a[k] == c[k] by {
                assert(a.subrange(0, i)[k] == b.subrange(0, i)[k]);
                assert(b.subrange(0, j)[k] == c.subrange(0, j)[k]);
            }
        }
        assert(a.subrange(0, i)[j] == b.subrange(0, i)[j]);
        assert(lt_at(a, c, j));
    } else {
        assert(a.subrange(0, i) =~= c.subrange(0, i));
        assert(lt_at(a, c, i));
    }
}

} // verus!
