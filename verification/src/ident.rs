//! Document identifiers: the decimal text of a counter.

use vstd::prelude::*;

verus! {

/// The character of a decimal digit.
pub open spec fn digit_char(digit: nat) -> char {
    if digit == 0 {
        '0'
    } else if digit == 1 {
        '1'
    } else if digit == 2 {
        '2'
    } else if digit == 3 {
        '3'
    } else if digit == 4 {
        '4'
    } else if digit == 5 {
        '5'
    } else if digit == 6 {
        '6'
    } else if digit == 7 {
        '7'
    } else if digit == 8 {
        '8'
    } else {
        '9'
    }
}

/// The identifier with number `n`: `n` in decimal, without leading zeros.
pub open spec fn id_text(n: nat) -> Seq<char>
    decreases n,
{
    if n < 10 {
        seq![digit_char(n)]
    } else {
        id_text(n / 10).push(digit_char(n % 10))
    }
}

/// Different numbers have different identifiers.
pub proof fn lemma_id_text_injective(a: nat, b: nat)
    requires
        id_text(a) == id_text(b),
    ensures
        a == b,
    decreases a,
{
    lemma_id_text_len(a / 10);
    lemma_id_text_len(b / 10);
    if a < 10 && b < 10 {
        assert(id_text(a)[0] == digit_char(a));
        assert(id_text(b)[0] == digit_char(b));
    } else if a >= 10 && b >= 10 {
        let x = id_text(a / 10);
        let y = id_text(b / 10);
        assert(x.push(digit_char(a % 10)).last() == digit_char(a % 10));
        assert(y.push(digit_char(b % 10)).last() == digit_char(b % 10));
        assert(x.push(digit_char(a % 10)).drop_last() =~= x);
        assert(y.push(digit_char(b % 10)).drop_last() =~= y);
        lemma_id_text_injective(a / 10, b / 10);
    } else {
        assert(id_text(a).len() != id_text(b).len());
    }
}

/// An identifier has at least one digit.
pub proof fn lemma_id_text_len(n: nat)
    ensures
        id_text(n).len() >= 1,
    decreases n,
{
    if n >= 10 {
        lemma_id_text_len(n / 10);
    }
}

/// The text of one decimal digit.
fn digit_text(digit: u64) -> (text: &'static str)
    requires
        digit < 10,
    ensures
        text@ == seq![digit_char(digit as nat)],
{
    proof {
        reveal_strlit("0");
        reveal_strlit("1");
        reveal_strlit("2");
        reveal_strlit("3");
        reveal_strlit("4");
        reveal_strlit("5");
        reveal_strlit("6");
        reveal_strlit("7");
        reveal_strlit("8");
        reveal_strlit("9");
    }
    let text = if digit == 0 {
        "0"
    } else if digit == 1 {
        "1"
    } else if digit == 2 {
        "2"
    } else if digit == 3 {
        "3"
    } else if digit == 4 {
        "4"
    } else if digit == 5 {
        "5"
    } else if digit == 6 {
        "6"
    } else if digit == 7 {
        "7"
    } else if digit == 8 {
        "8"
    } else {
        "9"
    };
    assert(text@ =~= seq![digit_char(digit as nat)]);
    text
}

/// Writes the identifier with number `n`.
pub fn render_id(n: u64) -> (text: String)
    ensures
        text@ == id_text(n as nat),
    decreases n,
{
    if n < 10 {
        String::from_str(digit_text(n))
    } else {
        let mut text = render_id(n / 10);
        text.append(digit_text(n % 10));
        assert(text@ =~= id_text(n as nat));
        text
    }
}

} // verus!
