//! Names of backing files that the vector picks for itself.
use vstd::prelude::*;

verus! {

/// The lowercase hexadecimal digit for `d < 16`.
pub open spec fn hex_char(d: nat) -> char {
    if d < 10 {
        (48 + d) as char
    } else {
        (87 + d) as char
    }
}

/// The lowercase hexadecimal digits of `n`, most significant first, without
/// leading zeros (`"0"` for zero), as `format!("{:x}", n)` writes them.
pub open spec fn hex_digits(n: nat) -> Seq<char>
    decreases n,
{
    if n < 16 {
        seq![hex_char(n)]
    } else {
        hex_digits(n / 16) + seq![hex_char(n % 16)]
    }
}

/// The prefix of every backing file name the vector picks: `.file-vec_`.
pub open spec fn temp_prefix() -> Seq<char> {
    seq!['.', 'f', 'i', 'l', 'e', '-', 'v', 'e', 'c', '_']
}

/// The backing file name picked from the number `n`: the prefix, then `n` in
/// hexadecimal.
pub open spec fn temp_path(n: u64) -> Seq<char> {
    temp_prefix() + hex_digits(n as nat)
}

/// Calls `rand::random::<u64>()`, a number drawn from the thread-local
/// generator. Nothing is promised of the number it returns.
#[verifier::external_body]
fn random_u64() -> u64 {
    rand::random::<u64>()
}

fn hex_digit(d: u64) -> (s: &'static str)
    requires
        d < 16,
    ensures
        s@ == seq![hex_char(d as nat)],
{
    if d == 0 {
        proof { reveal_strlit("0"); }
        "0"
    } else if d == 1 {
        proof { reveal_strlit("1"); }
        "1"
    } else if d == 2 {
        proof { reveal_strlit("2"); }
        "2"
    } else if d == 3 {
        proof { reveal_strlit("3"); }
        "3"
    } else if d == 4 {
        proof { reveal_strlit("4"); }
        "4"
    } else if d == 5 {
        proof { reveal_strlit("5"); }
        "5"
    } else if d == 6 {
        proof { reveal_strlit("6"); }
        "6"
    } else if d == 7 {
        proof { reveal_strlit("7"); }
        "7"
    } else if d == 8 {
        proof { reveal_strlit("8"); }
        "8"
    } else if d == 9 {
        proof { reveal_strlit("9"); }
        "9"
    } else if d == 10 {
        proof { reveal_strlit("a"); }
        "a"
    } else if d == 11 {
        proof { reveal_strlit("b"); }
        "b"
    } else if d == 12 {
        proof { reveal_strlit("c"); }
        "c"
    } else if d == 13 {
        proof { reveal_strlit("d"); }
        "d"
    } else if d == 14 {
        proof { reveal_strlit("e"); }
        "e"
    } else {
        proof { reveal_strlit("f"); }
        "f"
    }
}

fn append_hex(s: &mut String, n: u64)
    ensures
        final(s)@ == old(s)@ + hex_digits(n as nat),
    decreases n,
{
    if n >= 16 {
        append_hex(s, n / 16);
    }
    s.append(hex_digit(n % 16));
}

/// The backing file name picked from the number `n`.
pub fn temp_path_name(n: u64) -> (p: String)
    ensures
        p@ == temp_path(n),
{
    let mut p = String::from_str(".file-vec_");
    proof {
        reveal_strlit(".file-vec_");
        assert(p@ =~= temp_prefix());
    }
    append_hex(&mut p, n);
    p
}

/// Picks a fresh backing file name: the prefix and a random number in
/// hexadecimal.
pub fn generate_path() -> (p: String)
    ensures
        exists|n: u64| p@ == #[trigger] temp_path(n),
{
    let n: u64 = random_u64();
    temp_path_name(n)
}

} // verus!
