//! Invite codes: six symbols of an alphabet without look-alikes, and the
//! number that each code stands for.

use vstd::prelude::*;
use vstd::string::*;
use crate::entropy::random_index;

verus! {

/// Appending a character to a `String` (`String::push` of std) appends it to
/// the characters that the string holds.
pub assume_specification[ String::push ](s: &mut String, ch: char)
    ensures
        final(s)@ == old(s)@.push(ch),
;

/// The number of symbols in an invite code.
pub const CODE_LENGTH: usize = 6;

/// The number of symbols in the alphabet.
pub const ALPHABET_SIZE: usize = 32;

/// The number of invite codes that there are: `ALPHABET_SIZE` to the power
/// of `CODE_LENGTH`.
pub const CODE_SPACE: u32 = 1073741824;

/// The symbols of an invite code: capital letters and digits, without the
/// look-alikes `0`, `O`, `1` and `I`.
pub open spec fn alphabet() -> Seq<char> {
    "ABCDEFGHJKLMNPQRSTUVWXYZ23456789"@
}

/// `c` is a symbol of the alphabet.
pub open spec fn is_symbol(c: char) -> bool {
    alphabet().contains(c)
}

/// The place of `c` in the alphabet.
pub open spec fn symbol_value(c: char) -> int {
    alphabet().index_of(c)
}

/// Every character of `text` is a symbol of the alphabet.
pub open spec fn all_symbols(text: Seq<char>) -> bool {
    forall|i: int| 0 <= i < text.len() ==> is_symbol(#[trigger] text[i])
}

/// `text` is an invite code: `CODE_LENGTH` symbols of the alphabet.
pub open spec fn is_invite_code(text: Seq<char>) -> bool {
    text.len() == CODE_LENGTH && all_symbols(text)
}

/// The number of texts of `len` symbols.
pub open spec fn code_count(len: nat) -> int
    decreases len,
{
    if len == 0 {
        1
    } else {
        32 * code_count((len - 1) as nat)
    }
}

/// The number that `text` stands for, read as digits to the base
/// `ALPHABET_SIZE`, the first symbol weighing most.
pub open spec fn code_number(text: Seq<char>) -> int
    decreases text.len(),
{
    if text.len() == 0 {
        0
    } else {
        code_number(text.drop_last()) * 32 + symbol_value(text.last())
    }
}

/// The alphabet has `ALPHABET_SIZE` symbols, no two alike, and none of them
/// is one of the look-alikes.
pub proof fn lemma_alphabet()
    ensures
        alphabet().len() == ALPHABET_SIZE,
        alphabet().no_duplicates(),
        !is_symbol('0') && !is_symbol('O') && !is_symbol('1') && !is_symbol('I'),
        forall|d: int| 0 <= d < 32 ==> symbol_value(#[trigger] alphabet()[d]) == d,
        forall|c: char|
            is_symbol(c) ==> 0 <= #[trigger] symbol_value(c) < 32 && alphabet()[symbol_value(c)]
                == c,
{
    reveal_strlit("ABCDEFGHJKLMNPQRSTUVWXYZ23456789");
    let a = alphabet();
    assert(a.len() == 32);
    assert(a.no_duplicates());
    assert forall|d: int| 0 <= d < 32 implies symbol_value(#[trigger] a[d]) == d by {
        assert(a.contains(a[d]));
        let k = a.index_of(a[d]);
        assert(0 <= k < 32 && a[k] == a[d]);
    }
}

/// The symbol at place `index` of the alphabet.
pub fn symbol(index: usize) -> (c: char)
    requires
        index < ALPHABET_SIZE,
    ensures
        c == alphabet()[index as int],
        is_symbol(c),
        symbol_value(c) == index,
{
    proof {
        lemma_alphabet();
        reveal_strlit("ABCDEFGHJKLMNPQRSTUVWXYZ23456789");
    }
    "ABCDEFGHJKLMNPQRSTUVWXYZ23456789".get_char(index)
}

/// The place of `c` in the alphabet, if it is a symbol.
pub fn symbol_index(c: char) -> (place: Option<usize>)
    ensures
        place is Some <==> is_symbol(c),
        place is Some ==> place->Some_0 == symbol_value(c),
{
    proof {
        lemma_alphabet();
    }
    let mut i: usize = 0;
    while i < ALPHABET_SIZE
        invariant
            i <= ALPHABET_SIZE,
            alphabet().len() == ALPHABET_SIZE,
            forall|j: int| 0 <= j < i ==> alphabet()[j] != c,
        decreases ALPHABET_SIZE - i,
    {
        if symbol(i) == c {
            return Some(i);
        }
        i += 1;
    }
    None
}

/// Appending a symbol shifts the number by one digit.
pub proof fn lemma_code_number_push(text: Seq<char>, c: char)
    ensures
        code_number(text.push(c)) == code_number(text) * 32 + symbol_value(c),
{
    assert(text.push(c).drop_last() =~= text);
}

/// A text of symbols stands for a number below the count of texts of its
/// length.
pub proof fn lemma_code_number_bounds(text: Seq<char>)
    requires
        all_symbols(text),
    ensures
        0 <= code_number(text) < code_count(text.len()),
    decreases text.len(),
{
    if text.len() > 0 {
        lemma_alphabet();
        assert(all_symbols(text.drop_last())) by {
            assert forall|i: int| 0 <= i < text.drop_last().len() implies is_symbol(
                #[trigger] text.drop_last()[i],
            ) by {
                assert(text.drop_last()[i] == text[i]);
            }
        }
        lemma_code_number_bounds(text.drop_last());
        assert(is_symbol(text[text.len() - 1]));
    }
}

/// There are `CODE_SPACE` invite codes.
pub proof fn lemma_code_space()
    ensures
        code_count(CODE_LENGTH as nat) == CODE_SPACE,
{
    reveal_with_fuel(code_count, 7);
}

/// Two texts of symbols of one length that stand for the same number are
/// the same text.
pub proof fn lemma_code_number_injective(a: Seq<char>, b: Seq<char>)
    requires
        a.len() == b.len(),
        all_symbols(a),
        all_symbols(b),
        code_number(a) == code_number(b),
    ensures
        a == b,
    decreases a.len(),
{
    if a.len() == 0 {
        assert(a =~= b);
    } else {
        lemma_alphabet();
        let a0 = a.drop_last();
        let b0 = b.drop_last();
        assert(all_symbols(a0)) by {
            assert forall|i: int| 0 <= i < a0.len() implies is_symbol(#[trigger] a0[i]) by {
                assert(a0[i] == a[i]);
            }
        }
        assert(all_symbols(b0)) by {
            assert forall|i: int| 0 <= i < b0.len() implies is_symbol(#[trigger] b0[i]) by {
                assert(b0[i] == b[i]);
            }
        }
        assert(is_symbol(a[a.len() - 1]));
        assert(is_symbol(b[b.len() - 1]));
        lemma_code_number_bounds(a0);
        lemma_code_number_bounds(b0);
        assert(symbol_value(a.last()) == symbol_value(b.last()));
        assert(code_number(a0) == code_number(b0));
        lemma_code_number_injective(a0, b0);
        assert(a.last() == b.last());
        assert(a =~= a0.push(a.last()));
        assert(b =~= b0.push(b.last()));
    }
}

/// Reads an invite code as a number. A text that is no invite code has none.
pub fn invite_code_number(code: &str) -> (number: Option<u32>)
    ensures
        number is Some <==> is_invite_code(code@),
        number is Some ==> number->Some_0 == code_number(code@),
        number is Some ==> number->Some_0 < CODE_SPACE,
{
    if code.unicode_len() != CODE_LENGTH {
        return None;
    }
    let mut acc: u32 = 0;
    let mut i: usize = 0;
    while i < CODE_LENGTH
        invariant
            i <= CODE_LENGTH,
            code@.len() == CODE_LENGTH,
            all_symbols(code@.take(i as int)),
            acc == code_number(code@.take(i as int)),
        decreases CODE_LENGTH - i,
    {
        let c = code.get_char(i);
        let place = symbol_index(c);
        proof {
            assert(code@.take(i + 1) =~= code@.take(i as int).push(c));
            lemma_code_number_push(code@.take(i as int), c);
            lemma_code_number_bounds(code@.take(i as int));
            reveal_with_fuel(code_count, 7);
            lemma_alphabet();
        }
        match place {
            None => {
                assert(!is_symbol(code@[i as int]));
                return None;
            },
            Some(digit) => {
                acc = acc * 32 + digit as u32;
            },
        }
        i += 1;
    }
    proof {
        assert(code@.take(CODE_LENGTH as int) =~= code@);
        lemma_code_number_bounds(code@);
        lemma_code_space();
    }
    Some(acc)
}

/// Appends to `code` the symbol that stands for `digit`.
fn push_digit(code: &mut String, digit: u32)
    requires
        digit < ALPHABET_SIZE,
        all_symbols(old(code)@),
    ensures
        final(code)@ == old(code)@.push(alphabet()[digit as int]),
        all_symbols(final(code)@),
        code_number(final(code)@) == code_number(old(code)@) * 32 + digit,
{
    let c = symbol(digit as usize);
    proof {
        lemma_code_number_push(code@, c);
    }
    code.push(c);
}

/// Writes the invite code that stands for `number`.
pub fn invite_code_from_number(number: u32) -> (code: String)
    requires
        number < CODE_SPACE,
    ensures
        is_invite_code(code@),
        code_number(code@) == number,
{
    let mut code = String::new();
    assert(code_number(code@) == 0);
    push_digit(&mut code, number / 33554432);
    push_digit(&mut code, (number / 1048576) % 32);
    push_digit(&mut code, (number / 32768) % 32);
    push_digit(&mut code, (number / 1024) % 32);
    push_digit(&mut code, (number / 32) % 32);
    push_digit(&mut code, number % 32);
    code
}

/// Draws an invite code at random, symbol by symbol.
pub fn generate_invite_code() -> (code: String)
    ensures
        is_invite_code(code@),
{
    let mut code = String::new();
    let mut i: usize = 0;
    while i < CODE_LENGTH
        invariant
            i <= CODE_LENGTH,
            code@.len() == i,
            all_symbols(code@),
        decreases CODE_LENGTH - i,
    {
        let c = symbol(random_index(ALPHABET_SIZE));
        code.push(c);
        i += 1;
    }
    code
}

} // verus!
