//! Names inside an array directory: which entries are chunks, and what the
//! chunks of the output are called.

use vstd::prelude::*;

verus! {

/// Name of the descriptor file inside an array directory.
pub const DESCRIPTOR_FILE_NAME: &'static str = ".zarray";

/// The character of one decimal digit.
pub open spec fn digit_char(digit: nat) -> char
    recommends
        digit < 10,
{
    if digit == 0 {
        '0'
    } else if digit == 1 {
        '1'
    } else if digit == 2 {
        '2'
    } else if digit == 3 {
        '3'
    } else if digit == 4 {
        '4'
    } else if digit == 5 {
        '5'
    } else if digit == 6 {
        '6'
    } else if digit == 7 {
        '7'
    } else if digit == 8 {
        '8'
    } else {
        '9'
    }
}

/// The decimal numeral of `n`, without leading zeros.
pub open spec fn decimal(n: nat) -> Seq<char>
    decreases n,
{
    if n < 10 {
        seq![digit_char(n)]
    } else {
        decimal(n / 10).push(digit_char(n % 10))
    }
}

/// The name of output chunk `index`: its decimal numeral followed by `.0`.
pub open spec fn chunk_name(index: nat) -> Seq<char> {
    decimal(index) + seq!['.', '0']
}

/// `str`'s equality test. Trusted: two strings are equal exactly when they
/// hold the same characters.
#[verifier::external_body]
fn same_text(left: &str, right: &str) -> (same: bool)
    ensures
        same == (left@ == right@),
{
    left == right
}

/// Whether a directory entry is a chunk: a regular file that is not the
/// descriptor.
pub fn is_chunk_entry(name: &str, is_regular_file: bool) -> (r: bool)
    ensures
        r == (is_regular_file && name@ != DESCRIPTOR_FILE_NAME@),
{
    is_regular_file && !same_text(name, DESCRIPTOR_FILE_NAME)
}

/// One decimal digit as text.
fn digit_text(digit: usize) -> (text: &'static str)
    requires
        digit < 10,
    ensures
        text@ == seq![digit_char(digit as nat)],
{
    proof {
        reveal_strlit("0");
        reveal_strlit("1");
        reveal_strlit("2");
        reveal_strlit("3");
        reveal_strlit("4");
        reveal_strlit("5");
        reveal_strlit("6");
        reveal_strlit("7");
        reveal_strlit("8");
        reveal_strlit("9");
    }
    match digit {
        0 => "0",
        1 => "1",
        2 => "2",
        3 => "3",
        4 => "4",
        5 => "5",
        6 => "6",
        7 => "7",
        8 => "8",
        _ => "9",
    }
}

/// The decimal numeral of `n` as text.
pub fn decimal_text(n: usize) -> (text: String)
    ensures
        text@ == decimal(n as nat),
    decreases n,
{
    if n < 10 {
        digit_text(n).to_owned()
    } else {
        let mut text = decimal_text(n / 10);
        text.append(digit_text(n % 10));
        text
    }
}

/// The file name of output chunk `index`: `0.0`, `1.0`, `2.0` and so on.
pub fn chunk_file_name(index: usize) -> (name: String)
    ensures
        name@ == chunk_name(index as nat),
{
    let mut name = decimal_text(index);
    proof {
        reveal_strlit(".0");
    }
    name.append(".0");
    assert(name@ =~= chunk_name(index as nat));
    name
}

/// The digit that a character stands for.
pub open spec fn digit_value(c: char) -> nat {
    if c == '1' {
        1
    } else if c == '2' {
        2
    } else if c == '3' {
        3
    } else if c == '4' {
        4
    } else if c == '5' {
        5
    } else if c == '6' {
        6
    } else if c == '7' {
        7
    } else if c == '8' {
        8
    } else if c == '9' {
        9
    } else {
        0
    }
}

/// The number that a decimal numeral stands for.
pub open spec fn decimal_value(numeral: Seq<char>) -> nat
    decreases numeral.len(),
{
    if numeral.len() == 0 {
        0
    } else {
        decimal_value(numeral.drop_last()) * 10 + digit_value(numeral.last())
    }
}

/// A numeral stands for the number it was written from.
pub proof fn lemma_decimal_value(n: nat)
    ensures
        decimal_value(decimal(n)) == n,
    decreases n,
{
    let numeral = decimal(n);
    if n < 10 {
        assert(numeral.drop_last() =~= Seq::<char>::empty());
        assert(decimal_value(numeral.drop_last()) == 0);
        assert(numeral.last() == digit_char(n));
    } else {
        lemma_decimal_value(n / 10);
        assert(numeral.drop_last() =~= decimal(n / 10));
        assert(numeral.last() == digit_char(n % 10));
    }
    assert(decimal_value(numeral) == decimal_value(numeral.drop_last()) * 10 + digit_value(
        numeral.last(),
    ));
}

/// Different chunks have different names: no output chunk overwrites
/// another.
pub proof fn lemma_chunk_names_differ(first: nat, second: nat)
    requires
        first != second,
    ensures
        chunk_name(first) != chunk_name(second),
{
    let a = decimal(first);
    let b = decimal(second);
    if chunk_name(first) == chunk_name(second) {
        // Equal names are equally long, so the numerals in them are equal.
        assert(chunk_name(first).len() == a.len() + 2);
        assert(chunk_name(second).len() == b.len() + 2);
        assert(a =~= chunk_name(first).take(a.len() as int));
        assert(b =~= chunk_name(second).take(b.len() as int));
        assert(a == b);
        lemma_decimal_value(first);
        lemma_decimal_value(second);
        assert(first == decimal_value(a) == second);
    }
}

/// No chunk is named like the descriptor: the descriptor overwrites no
/// chunk, and every output chunk is a chunk entry to whoever reads the
/// directory again.
pub proof fn lemma_chunk_name_is_not_descriptor(index: nat)
    ensures
        chunk_name(index) != DESCRIPTOR_FILE_NAME@,
{
    // A chunk's name ends in `0`, the descriptor's in `y`.
    reveal_strlit(".zarray");
    assert(chunk_name(index).last() == '0');
    assert(DESCRIPTOR_FILE_NAME@.last() == 'y');
}

} // verus!
