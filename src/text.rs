//! Building blocks of rendered text: decimal digits, padding, and the
//! human-readable size with 1024-based units.
use vstd::prelude::*;

verus! {

pub open spec fn digit_char(d: nat) -> char {
    if d == 0 {
        '0'
    } else if d == 1 {
        '1'
    } else if d == 2 {
        '2'
    } else if d == 3 {
        '3'
    } else if d == 4 {
        '4'
    } else if d == 5 {
        '5'
    } else if d == 6 {
        '6'
    } else if d == 7 {
        '7'
    } else if d == 8 {
        '8'
    } else {
        '9'
    }
}

/// Decimal representation of `n`, without leading zeros.
pub open spec fn digits(n: nat) -> Seq<char>
    decreases n,
{
    if n < 10 {
        seq![digit_char(n)]
    } else {
        digits(n / 10) + seq![digit_char(n % 10)]
    }
}

pub open spec fn repeat_char(c: char, k: nat) -> Seq<char>
    decreases k,
{
    if k == 0 {
        Seq::empty()
    } else {
        repeat_char(c, (k - 1) as nat).push(c)
    }
}

/// `s` preceded by `c` up to `width` characters.
pub open spec fn pad_left(s: Seq<char>, c: char, width: nat) -> Seq<char> {
    if s.len() < width {
        repeat_char(c, (width - s.len()) as nat) + s
    } else {
        s
    }
}

/// `s` followed by spaces up to `width` characters.
pub open spec fn pad_right(s: Seq<char>, width: nat) -> Seq<char> {
    if s.len() < width {
        s + repeat_char(' ', (width - s.len()) as nat)
    } else {
        s
    }
}

pub open spec fn pow1024(k: nat) -> nat
    decreases k,
{
    if k == 0 {
        1
    } else {
        1024 * pow1024((k - 1) as nat)
    }
}

/// Index of the unit a size is shown in: the largest `k` up to 5 with
/// `1024^k <= size` (0 below 1024).
pub open spec fn unit_index(size: nat) -> nat {
    if size >= pow1024(5) {
        5
    } else if size >= pow1024(4) {
        4
    } else if size >= pow1024(3) {
        3
    } else if size >= pow1024(2) {
        2
    } else if size >= pow1024(1) {
        1
    } else {
        0
    }
}

pub open spec fn unit_name(k: nat) -> Seq<char> {
    if k == 0 {
        seq!['B']
    } else if k == 1 {
        seq!['K', 'B']
    } else if k == 2 {
        seq!['M', 'B']
    } else if k == 3 {
        seq!['G', 'B']
    } else if k == 4 {
        seq!['T', 'B']
    } else {
        seq!['P', 'B']
    }
}

/// `size / 1024^k` in tenths, rounded to nearest with ties to even.
pub open spec fn tenths(size: nat, k: nat) -> nat {
    let d = pow1024(k);
    let q = size * 10 / d;
    let r = size * 10 % d;
    if 2 * r > d || (2 * r == d && q % 2 == 1) {
        q + 1
    } else {
        q
    }
}

/// A size in bytes as one decimal digit and a unit: `512.0B`, `1.5KB`.
pub open spec fn size_text(size: nat) -> Seq<char> {
    let t = tenths(size, unit_index(size));
    digits(t / 10) + seq!['.', digit_char(t % 10)] + unit_name(unit_index(size))
}

pub fn digit_str(d: u64) -> (r: &'static str)
    requires
        d < 10,
    ensures
        r@ == seq![digit_char(d as nat)],
{
    let r = if d == 0 {
        proof {
            reveal_strlit("0");
        }
        "0"
    } else if d == 1 {
        proof {
            reveal_strlit("1");
        }
        "1"
    } else if d == 2 {
        proof {
            reveal_strlit("2");
        }
        "2"
    } else if d == 3 {
        proof {
            reveal_strlit("3");
        }
        "3"
    } else if d == 4 {
        proof {
            reveal_strlit("4");
        }
        "4"
    } else if d == 5 {
        proof {
            reveal_strlit("5");
        }
        "5"
    } else if d == 6 {
        proof {
            reveal_strlit("6");
        }
        "6"
    } else if d == 7 {
        proof {
            reveal_strlit("7");
        }
        "7"
    } else if d == 8 {
        proof {
            reveal_strlit("8");
        }
        "8"
    } else {
        proof {
            reveal_strlit("9");
        }
        "9"
    };
    assert(r@ =~= seq![digit_char(d as nat)]);
    r
}

/// Decimal representation of `n`.
pub fn decimal(n: u64) -> (r: String)
    ensures
        r@ == digits(n as nat),
    decreases n,
{
    if n < 10 {
        String::from_str(digit_str(n))
    } else {
        let head = decimal(n / 10);
        head.concat(digit_str(n % 10))
    }
}

/// `k` copies of a one-character string `c`.
pub fn repeat_str(c: &str, k: usize) -> (r: String)
    requires
        c@.len() == 1,
    ensures
        r@ == repeat_char(c@[0], k as nat),
{
    let mut r = String::new();
    let mut i: usize = 0;
    while i < k
        invariant
            i <= k,
            c@.len() == 1,
            r@ == repeat_char(c@[0], i as nat),
        decreases k - i,
    {
        r.append(c);
        i = i + 1;
        assert(r@ =~= repeat_char(c@[0], i as nat));
    }
    r
}

/// `s` preceded by copies of the one-character `c` up to `width` characters.
pub fn pad_left_str(s: String, c: &str, width: usize) -> (r: String)
    requires
        c@.len() == 1,
    ensures
        r@ == pad_left(s@, c@[0], width as nat),
{
    let n = s.as_str().unicode_len();
    if n < width {
        let fill = repeat_str(c, width - n);
        fill.concat(s.as_str())
    } else {
        s
    }
}

/// `s` followed by spaces up to `width` characters.
pub fn pad_right_str(s: String, width: usize) -> (r: String)
    ensures
        r@ == pad_right(s@, width as nat),
{
    let n = s.as_str().unicode_len();
    if n < width {
        proof {
            reveal_strlit(" ");
        }
        let fill = repeat_str(" ", width - n);
        s.concat(fill.as_str())
    } else {
        s
    }
}

fn unit_str(k: u64) -> (r: &'static str)
    ensures
        r@ == unit_name(k as nat),
{
    let r = if k == 0 {
        proof {
            reveal_strlit("B");
        }
        "B"
    } else if k == 1 {
        proof {
            reveal_strlit("KB");
        }
        "KB"
    } else if k == 2 {
        proof {
            reveal_strlit("MB");
        }
        "MB"
    } else if k == 3 {
        proof {
            reveal_strlit("GB");
        }
        "GB"
    } else if k == 4 {
        proof {
            reveal_strlit("TB");
        }
        "TB"
    } else {
        proof {
            reveal_strlit("PB");
        }
        "PB"
    };
    assert(r@ =~= unit_name(k as nat));
    r
}

proof fn lemma_pow1024_values()
    ensures
        pow1024(0) == 1,
        pow1024(1) == 1024,
        pow1024(2) == 1048576,
        pow1024(3) == 1073741824,
        pow1024(4) == 1099511627776,
        pow1024(5) == 1125899906842624,
{
    reveal_with_fuel(pow1024, 6);
}

/// Renders a byte count with one decimal digit in the largest of the units
/// B, KB, MB, GB, TB, PB that it reaches.
pub fn human_size(size: u64) -> (r: String)
    ensures
        r@ == size_text(size as nat),
{
    proof {
        lemma_pow1024_values();
    }
    let mut k: u64 = 0;
    let mut d: u128 = 1;
    while k < 5 && (size as u128) >= d * 1024
        invariant
            k <= 5,
            d == pow1024(k as nat),
            size as nat >= d || k == 0,
            forall|j: nat| j <= k ==> pow1024(j) <= size as nat || j == 0,
        decreases 5 - k,
    {
        d = d * 1024;
        k = k + 1;
        assert(pow1024(k as nat) == 1024 * pow1024((k - 1) as nat));
    }
    assert(k as nat == unit_index(size as nat)) by {
        reveal_with_fuel(pow1024, 6);
    }
    let scaled: u128 = (size as u128) * 10;
    let q: u128 = scaled / d;
    let rem: u128 = scaled % d;
    let t: u128 = if 2 * rem > d || (2 * rem == d && q % 2 == 1) {
        q + 1
    } else {
        q
    };
    assert(t as nat == tenths(size as nat, k as nat));
    let whole = decimal((t / 10) as u64);
    let s = whole.concat(".");
    proof {
        reveal_strlit(".");
    }
    let s = s.concat(digit_str((t % 10) as u64));
    let r = s.concat(unit_str(k));
    assert(r@ =~= size_text(size as nat));
    r
}

} // verus!
