//! Text primitives: the order of strings, decimal rendering of integers and
//! joining, each with an exact statement over character sequences.

use vstd::prelude::*;

verus! {

/// Outcome of a three-way comparison.
#[derive(Clone, Copy, Debug, PartialEq, Eq, Structural)]
pub enum Cmp {
    Less,
    Equal,
    Greater,
}

/// `a` and `b` both have at least `k` characters and agree on the first `k`.
pub open spec fn agree_upto(a: Seq<char>, b: Seq<char>, k: int) -> bool {
    &&& 0 <= k <= a.len()
    &&& k <= b.len()
    &&& forall|i: int| 0 <= i < k ==> a[i] == b[i]
}

/// `a` comes strictly before `b` in lexicographic order by code point, the
/// order that `Ord` gives `str` and `String` (UTF-8 keeps code point order).
pub open spec fn lex_lt(a: Seq<char>, b: Seq<char>) -> bool {
    exists|k: int|
        #![trigger agree_upto(a, b, k)]
        agree_upto(a, b, k) && ((k == a.len() && k < b.len()) || (k < a.len() && k < b.len()
            && (a[k] as int) < (b[k] as int)))
}

proof fn lemma_agree_mono(a: Seq<char>, b: Seq<char>, k: int, j: int)
    requires
        agree_upto(a, b, k),
        0 <= j <= k,
    ensures
        agree_upto(a, b, j),
{
}

/// No sequence precedes itself, and of two sequences at most one precedes
/// the other.
pub proof fn lemma_lex_asymmetric(a: Seq<char>, b: Seq<char>)
    ensures
        !(lex_lt(a, b) && lex_lt(b, a)),
        !lex_lt(a, a),
{
    if lex_lt(a, b) && lex_lt(b, a) {
        let k1 = choose|k: int|
            agree_upto(a, b, k) && ((k == a.len() && k < b.len()) || (k < a.len() && k < b.len()
                && (a[k] as int) < (b[k] as int)));
        let k2 = choose|k: int|
            agree_upto(b, a, k) && ((k == b.len() && k < a.len()) || (k < b.len() && k < a.len()
                && (b[k] as int) < (a[k] as int)));
        if k1 < k2 {
            assert(a[k1] == b[k1]);
        } else if k2 < k1 {
            assert(a[k2] == b[k2]);
        }
    }
    if lex_lt(a, a) {
        let k = choose|k: int|
            agree_upto(a, a, k) && ((k == a.len() && k < a.len()) || (k < a.len() && k < a.len()
                && (a[k] as int) < (a[k] as int)));
    }
}

/// Lexicographic order is transitive.
pub proof fn lemma_lex_transitive(a: Seq<char>, b: Seq<char>, c: Seq<char>)
    requires
        lex_lt(a, b),
        lex_lt(b, c),
    ensures
        lex_lt(a, c),
{
    let k1 = choose|k: int|
        agree_upto(a, b, k) && ((k == a.len() && k < b.len()) || (k < a.len() && k < b.len()
            && (a[k] as int) < (b[k] as int)));
    let k2 = choose|k: int|
        agree_upto(b, c, k) && ((k == b.len() && k < c.len()) || (k < b.len() && k < c.len()
            && (b[k] as int) < (c[k] as int)));
    if k1 <= k2 {
        assert(agree_upto(a, c, k1));
    } else {
        assert(agree_upto(a, c, k2));
    }
}

proof fn lemma_lex_total_from(a: Seq<char>, b: Seq<char>, k: int)
    requires
        agree_upto(a, b, k),
        a != b,
    ensures
        lex_lt(a, b) || lex_lt(b, a),
    decreases a.len() - k,
{
    if k == a.len() && k == b.len() {
        assert(a =~= b);
    } else if k == a.len() || k == b.len() {
        assert(agree_upto(b, a, k));
    } else if a[k] != b[k] {
        assert(agree_upto(b, a, k));
        assert((a[k] as int) != (b[k] as int));
    } else {
        lemma_lex_total_from(a, b, k + 1);
    }
}

/// Two different sequences are ordered one way or the other.
pub proof fn lemma_lex_total(a: Seq<char>, b: Seq<char>)
    requires
        a != b,
    ensures
        lex_lt(a, b) || lex_lt(b, a),
{
    lemma_lex_total_from(a, b, 0);
}

/// Compares two strings in the order of `str`'s `Ord`.
pub fn compare_text(a: &str, b: &str) -> (r: Cmp)
    ensures
        (r == Cmp::Less) == lex_lt(a@, b@),
        (r == Cmp::Equal) == (a@ == b@),
        (r == Cmp::Greater) == lex_lt(b@, a@),
{
    proof {
        lemma_lex_asymmetric(a@, b@);
        if a@ != b@ {
            lemma_lex_total(a@, b@);
        }
    }
    let la = a.unicode_len();
    let lb = b.unicode_len();
    let mut i: usize = 0;
    while i < la && i < lb
        invariant
            la == a@.len(),
            lb == b@.len(),
            agree_upto(a@, b@, i as int),
        decreases la - i,
    {
        let ca = a.get_char(i);
        let cb = b.get_char(i);
        if (ca as u32) < (cb as u32) {
            assert(agree_upto(a@, b@, i as int));
            return Cmp::Less;
        }
        if (cb as u32) < (ca as u32) {
            assert(agree_upto(b@, a@, i as int));
            return Cmp::Greater;
        }
        assert(ca == cb);
        i = i + 1;
    }
    if la < lb {
        assert(agree_upto(a@, b@, i as int));
        Cmp::Less
    } else if lb < la {
        assert(agree_upto(b@, a@, i as int));
        Cmp::Greater
    } else {
        assert(a@ =~= b@);
        Cmp::Equal
    }
}

/// The decimal digits, in order.
pub open spec fn digit_char(d: int) -> char {
    seq!['0', '1', '2', '3', '4', '5', '6', '7', '8', '9'][d]
}

/// Decimal notation of a natural number, without leading zeros.
pub open spec fn nat_text(n: nat) -> Seq<char>
    decreases n,
{
    if n < 10 {
        seq![digit_char(n as int)]
    } else {
        nat_text(n / 10) + seq![digit_char((n % 10) as int)]
    }
}

/// The number a string of decimal digits denotes.
pub open spec fn decimal_value(s: Seq<char>) -> int
    decreases s.len(),
{
    if s.len() == 0 {
        0
    } else {
        decimal_value(s.drop_last()) * 10 + ((s.last() as int) - ('0' as int))
    }
}

proof fn lemma_digit_char(d: int)
    requires
        0 <= d < 10,
    ensures
        digit_char(d) as int == '0' as int + d,
{
    if d == 0 {
    } else if d == 1 {
    } else if d == 2 {
    } else if d == 3 {
    } else if d == 4 {
    } else if d == 5 {
    } else if d == 6 {
    } else if d == 7 {
    } else if d == 8 {
    } else {
    }
}

/// The decimal notation of `n` is a non-empty string of digits `0` to `9`,
/// without a leading zero unless `n` is zero, and it denotes `n`.
pub proof fn lemma_nat_text(n: nat)
    ensures
        decimal_value(nat_text(n)) == n,
        nat_text(n).len() > 0,
        forall|i: int|
            0 <= i < nat_text(n).len() ==> '0' as int <= (#[trigger] nat_text(n)[i]) as int <= '9' as int,
        n > 0 ==> nat_text(n)[0] != '0',
    decreases n,
{
    if n < 10 {
        lemma_digit_char(n as int);
        let t = nat_text(n);
        assert(t.drop_last() =~= Seq::<char>::empty());
        assert(decimal_value(t.drop_last()) == 0);
        assert(t.last() == digit_char(n as int));
        assert(decimal_value(t) == n);
    } else {
        lemma_nat_text(n / 10);
        lemma_digit_char((n % 10) as int);
        let t = nat_text(n);
        assert(t.drop_last() =~= nat_text(n / 10));
        assert(t.last() == digit_char((n % 10) as int));
        assert((n / 10) * 10 + n % 10 == n);
        assert(decimal_value(t) == decimal_value(nat_text(n / 10)) * 10 + (n % 10));
        assert(t[0] == nat_text(n / 10)[0]);
        assert forall|i: int| 0 <= i < t.len() implies '0' as int <= (#[trigger] t[i]) as int <= '9' as int by {
            if i < t.len() - 1 {
                assert(t[i] == nat_text(n / 10)[i]);
            }
        }
    }
}

/// Decimal notation of an integer: a minus sign before negative values.
pub open spec fn int_text(x: int) -> Seq<char> {
    if x < 0 {
        seq!['-'] + nat_text((-x) as nat)
    } else {
        nat_text(x as nat)
    }
}

fn digit_text(d: u64) -> (r: &'static str)
    requires
        d < 10,
    ensures
        r@ == seq![digit_char(d as int)],
{
    proof {
        reveal_strlit("0");
        reveal_strlit("1");
        reveal_strlit("2");
        reveal_strlit("3");
        reveal_strlit("4");
        reveal_strlit("5");
        reveal_strlit("6");
        reveal_strlit("7");
        reveal_strlit("8");
        reveal_strlit("9");
    }
    match d {
        0 => "0",
        1 => "1",
        2 => "2",
        3 => "3",
        4 => "4",
        5 => "5",
        6 => "6",
        7 => "7",
        8 => "8",
        _ => "9",
    }
}

/// Appends the decimal notation of `n` to `out`.
pub fn push_nat(out: &mut String, n: u64)
    ensures
        final(out)@ == old(out)@ + nat_text(n as nat),
    decreases n,
{
    if n >= 10 {
        push_nat(out, n / 10);
    }
    out.append(digit_text(n % 10));
    proof {
        assert(old(out)@ + nat_text(n as nat) =~= if n >= 10 {
            old(out)@ + nat_text((n / 10) as nat) + seq![digit_char((n % 10) as int)]
        } else {
            old(out)@ + seq![digit_char((n % 10) as int)]
        });
    }
}

/// Appends the decimal notation of `x` to `out`.
pub fn push_int(out: &mut String, x: i64)
    ensures
        final(out)@ == old(out)@ + int_text(x as int),
{
    if x < 0 {
        out.append("-");
        proof {
            reveal_strlit("-");
        }
        let magnitude: u64 = if x == i64::MIN {
            9223372036854775808u64
        } else {
            (-x) as u64
        };
        push_nat(out, magnitude);
        assert(final(out)@ =~= old(out)@ + int_text(x as int));
    } else {
        push_nat(out, x as u64);
    }
}

} // verus!
