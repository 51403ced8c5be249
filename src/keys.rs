//! The key layout of the backing store.
//!
//! A simple object lives under its digest, a chunked object's metadata under
//! `meta:<digest>` and its chunks under `chunk:<digest>:<index>`, with the
//! index in decimal.
use vstd::prelude::*;
use vstd::string::*;

verus! {

/// The decimal digit for a value below 10.
pub open spec fn digit_char(d: nat) -> char {
    if d == 0 { '0' } else if d == 1 { '1' } else if d == 2 { '2' } else if d == 3 { '3' }
    else if d == 4 { '4' } else if d == 5 { '5' } else if d == 6 { '6' } else if d == 7 { '7' }
    else if d == 8 { '8' } else { '9' }
}

/// The decimal digits of `n`, without leading zeros.
pub open spec fn decimal(n: nat) -> Seq<char>
    decreases n,
{
    if n < 10 {
        seq![digit_char(n)]
    } else {
        decimal(n / 10).push(digit_char(n % 10))
    }
}

pub open spec fn meta_key(d: Seq<char>) -> Seq<char> {
    "meta:"@ + d
}

pub open spec fn chunk_key_prefix(d: Seq<char>) -> Seq<char> {
    "chunk:"@ + d + ":"@
}

pub open spec fn chunk_key(d: Seq<char>, i: nat) -> Seq<char> {
    chunk_key_prefix(d) + decimal(i)
}

proof fn lemma_digit_injective(x: nat, y: nat)
    requires
        x < 10,
        y < 10,
        digit_char(x) == digit_char(y),
    ensures
        x == y,
{
}

proof fn lemma_decimal_nonempty(n: nat)
    ensures
        decimal(n).len() >= 1,
    decreases n,
{
    if n >= 10 {
        lemma_decimal_nonempty(n / 10);
    }
}

/// Distinct numbers have distinct decimal forms.
pub proof fn lemma_decimal_injective(a: nat, b: nat)
    requires
        decimal(a) == decimal(b),
    ensures
        a == b,
    decreases a,
{
    if a < 10 && b < 10 {
        assert(decimal(a) == seq![digit_char(a)]);
        assert(decimal(b) == seq![digit_char(b)]);
        assert(seq![digit_char(a)][0] == digit_char(a));
        assert(seq![digit_char(b)][0] == digit_char(b));
        lemma_digit_injective(a, b);
    } else if a < 10 {
        lemma_decimal_nonempty(b / 10);
        assert(decimal(b).len() >= 2);
    } else if b < 10 {
        lemma_decimal_nonempty(a / 10);
        assert(decimal(a).len() >= 2);
    } else {
        let da = decimal(a);
        let db = decimal(b);
        assert(da.last() == db.last());
        assert(da.drop_last() =~= decimal(a / 10));
        assert(db.drop_last() =~= decimal(b / 10));
        lemma_digit_injective(a % 10, b % 10);
        lemma_decimal_injective(a / 10, b / 10);
        assert(a == 10 * (a / 10) + a % 10);
        assert(b == 10 * (b / 10) + b % 10);
    }
}

/// Chunk keys of one object differ by index, and none is its metadata key.
pub proof fn lemma_keys_distinct(d: Seq<char>, i: nat, j: nat)
    ensures
        chunk_key(d, i) == chunk_key(d, j) ==> i == j,
        chunk_key(d, i) != meta_key(d),
{
    reveal_strlit("chunk:");
    reveal_strlit("meta:");
    reveal_strlit(":");
    let p = chunk_key_prefix(d);
    if chunk_key(d, i) == chunk_key(d, j) {
        assert(chunk_key(d, i).skip(p.len() as int) =~= decimal(i));
        assert(chunk_key(d, j).skip(p.len() as int) =~= decimal(j));
        lemma_decimal_injective(i, j);
    }
    assert(chunk_key(d, i)[0] == 'c');
    assert(meta_key(d)[0] == 'm');
}

fn digit_str(d: usize) -> (r: &'static str)
    requires
        d < 10,
    ensures
        r@ == seq![digit_char(d as nat)],
{
    if d == 0 {
        proof { reveal_strlit("0"); }
        assert("0"@ =~= seq!['0']);
        "0"
    } else if d == 1 {
        proof { reveal_strlit("1"); }
        assert("1"@ =~= seq!['1']);
        "1"
    } else if d == 2 {
        proof { reveal_strlit("2"); }
        assert("2"@ =~= seq!['2']);
        "2"
    } else if d == 3 {
        proof { reveal_strlit("3"); }
        assert("3"@ =~= seq!['3']);
        "3"
    } else if d == 4 {
        proof { reveal_strlit("4"); }
        assert("4"@ =~= seq!['4']);
        "4"
    } else if d == 5 {
        proof { reveal_strlit("5"); }
        assert("5"@ =~= seq!['5']);
        "5"
    } else if d == 6 {
        proof { reveal_strlit("6"); }
        assert("6"@ =~= seq!['6']);
        "6"
    } else if d == 7 {
        proof { reveal_strlit("7"); }
        assert("7"@ =~= seq!['7']);
        "7"
    } else if d == 8 {
        proof { reveal_strlit("8"); }
        assert("8"@ =~= seq!['8']);
        "8"
    } else {
        proof { reveal_strlit("9"); }
        assert("9"@ =~= seq!['9']);
        "9"
    }
}

/// The decimal form of `n`.
pub fn decimal_string(n: usize) -> (r: String)
    ensures
        r@ == decimal(n as nat),
    decreases n,
{
    if n < 10 {
        String::from_str(digit_str(n))
    } else {
        let mut s = decimal_string(n / 10);
        s.append(digit_str(n % 10));
        s
    }
}

/// The key of a chunked object's metadata record.
pub fn meta_key_string(d: &str) -> (r: String)
    ensures
        r@ == meta_key(d@),
{
    let mut k = String::from_str("meta:");
    k.append(d);
    k
}

/// The key of chunk `i` of a chunked object.
pub fn chunk_key_string(d: &str, i: usize) -> (r: String)
    ensures
        r@ == chunk_key(d@, i as nat),
{
    let mut k = String::from_str("chunk:");
    k.append(d);
    k.append(":");
    let n = decimal_string(i);
    k.append(n.as_str());
    k
}

} // verus!
