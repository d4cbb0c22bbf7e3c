use vstd::prelude::*;
use vstd::string::{StrSliceExecFns, StringExecFns};

verus! {

/// Whether `c` is one of the ten decimal digits.
pub open spec fn is_digit(c: char) -> bool {
    '0' <= c <= '9'
}

/// Every character of `text` is a decimal digit.
pub open spec fn all_digits(text: Seq<char>) -> bool {
    forall|i: int| 0 <= i < text.len() ==> is_digit(#[trigger] text[i])
}

/// The number that a run of decimal digits writes.
pub open spec fn digits_value(digits: Seq<char>) -> int
    decreases digits.len(),
{
    if digits.len() == 0 {
        0
    } else {
        10 * digits_value(digits.drop_last()) + (digits.last() as int - '0' as int)
    }
}

/// The whole number that `text` writes in decimal: an optional `+` or `-`
/// and then one digit or more, with nothing before, between or after.
pub open spec fn signed_value(text: Seq<char>) -> Option<int> {
    let signed = text.len() > 0 && (text[0] == '-' || text[0] == '+');
    let digits = if signed {
        text.skip(1)
    } else {
        text
    };
    if digits.len() == 0 || !all_digits(digits) {
        None
    } else if signed && text[0] == '-' {
        Some(-digits_value(digits))
    } else {
        Some(digits_value(digits))
    }
}

/// The price that `text` writes, if it writes a whole number that a price
/// can hold.
pub open spec fn price_of(text: Seq<char>) -> Option<i32> {
    match signed_value(text) {
        Some(value) => if i32::MIN <= value <= i32::MAX {
            Some(value as i32)
        } else {
            None
        },
        None => None,
    }
}

/// The digits read so far never write more than all of them do.
proof fn lemma_digits_value_grows(digits: Seq<char>, k: int)
    requires
        all_digits(digits),
        0 <= k <= digits.len(),
    ensures
        0 <= digits_value(digits.take(k)) <= digits_value(digits),
    decreases digits.len(),
{
    if digits.len() == 0 {
        assert(digits.take(k) =~= digits);
    } else if k == digits.len() {
        assert(digits.take(k) =~= digits);
        assert(is_digit(digits.last()));
        assert(all_digits(digits.drop_last()));
        lemma_digits_value_grows(digits.drop_last(), k - 1);
    } else {
        assert(is_digit(digits.last()));
        assert(all_digits(digits.drop_last()));
        assert(digits.drop_last().take(k) =~= digits.take(k));
        lemma_digits_value_grows(digits.drop_last(), k);
    }
}

fn digit(c: char) -> (value: Option<i64>)
    ensures
        match value {
            Some(d) => is_digit(c) && d == c as int - '0' as int && 0 <= d <= 9,
            None => !is_digit(c),
        },
{
    if '0' <= c && c <= '9' {
        Some((c as u32 - '0' as u32) as i64)
    } else {
        None
    }
}

/// Reads a price written in decimal. Anything but an optional sign and then
/// digits only, and any number that a price cannot hold, gives `None`.
#[verifier::loop_isolation(false)]
pub fn parse_price(text: &str) -> (price: Option<i32>)
    ensures
        price == price_of(text@),
{
    let len: usize = text.unicode_len();
    if len == 0 {
        return None;
    }
    let first = text.get_char(0);
    let negative = first == '-';
    let start: usize = if first == '-' || first == '+' {
        1
    } else {
        0
    };
    let ghost digits = text@.skip(start as int);
    if start == len {
        return None;
    }
    let mut value: i64 = 0;
    let mut i: usize = start;
    proof {
        assert(digits.take(0) =~= Seq::<char>::empty());
        assert(text@.skip(0) =~= text@);
    }
    while i < len
        invariant
            start <= i <= len,
            len == text@.len(),
            digits == text@.skip(start as int),
            all_digits(digits.take(i - start)),
            value == digits_value(digits.take(i - start)),
            0 <= value <= 2147483648,
        decreases len - i,
    {
        let ghost read = digits.take(i - start);
        let ghost longer = digits.take(i - start + 1);
        proof {
            assert(longer.drop_last() =~= read);
            assert(longer.last() == text@[i as int]);
        }
        match digit(text.get_char(i)) {
            None => {
                assert(!is_digit(digits[i - start]));
                return None;
            },
            Some(d) => {
                value = value * 10 + d;
                proof {
                    assert forall|j: int| 0 <= j < longer.len() implies is_digit(
                        #[trigger] longer[j],
                    ) by {
                        if j < read.len() {
                            assert(read[j] == longer[j]);
                        }
                    }
                }
                if value > 2147483648 {
                    proof {
                        if all_digits(digits) {
                            lemma_digits_value_grows(digits, i - start + 1);
                        }
                    }
                    return None;
                }
            },
        }
        i = i + 1;
    }
    proof {
        assert(digits.take(len - start) =~= digits);
    }
    if negative {
        Some((-value) as i32)
    } else if value > 2147483647 {
        None
    } else {
        Some(value as i32)
    }
}

/// `n` is where the first space of `text` stands, or the length of `text`
/// if it has none.
pub open spec fn is_first_space(text: Seq<char>, n: int) -> bool {
    &&& 0 <= n <= text.len()
    &&& forall|j: int| 0 <= j < n ==> text[j] != ' '
    &&& n < text.len() ==> text[n] == ' '
}

/// The outcode of a postcode: what stands before its first space, all of
/// it if there is none.
pub open spec fn outcode_of(postcode: Seq<char>) -> Seq<char> {
    postcode.take(choose|n: int| is_first_space(postcode, n))
}

/// The outcode of a postcode is cut where its first space stands.
pub proof fn lemma_outcode_of(postcode: Seq<char>, n: int)
    requires
        is_first_space(postcode, n),
    ensures
        outcode_of(postcode) == postcode.take(n),
{
    let chosen = choose|n: int| is_first_space(postcode, n);
    if chosen < n {
        assert(postcode[chosen] == ' ');
    } else if n < chosen {
        assert(postcode[n] == ' ');
    }
}

/// The outcode of a postcode: the part before its first space.
pub fn outcode(postcode: &str) -> (code: String)
    ensures
        code@ == outcode_of(postcode@),
{
    let len: usize = postcode.unicode_len();
    let mut n: usize = 0;
    while n < len && postcode.get_char(n) != ' '
        invariant
            n <= len,
            len == postcode@.len(),
            forall|j: int| 0 <= j < n ==> postcode@[j] != ' ',
        decreases len - n,
    {
        n = n + 1;
    }
    proof {
        lemma_outcode_of(postcode@, n as int);
    }
    String::from_str(postcode.substring_char(0, n))
}

/// `address` with `part` added to it: an empty part adds nothing, and a
/// comma and a space part it from what came before.
pub open spec fn with_part(address: Seq<char>, part: Seq<char>) -> Seq<char> {
    if part.len() == 0 {
        address
    } else if address.len() == 0 {
        part
    } else {
        address + ", "@ + part
    }
}

/// The address of a property: its house name or number, its flat or unit,
/// its street and its town, those that are not empty, parted by a comma and
/// a space.
pub open spec fn address_of(
    paon: Seq<char>,
    saon: Seq<char>,
    street: Seq<char>,
    city: Seq<char>,
) -> Seq<char> {
    with_part(with_part(with_part(with_part(Seq::empty(), paon), saon), street), city)
}

fn add_part(address: &mut String, part: &str)
    ensures
        final(address)@ == with_part(old(address)@, part@),
{
    if !part.is_empty() {
        if !address.as_str().is_empty() {
            address.append(", ");
        }
        address.append(part);
        proof {
            assert(Seq::<char>::empty() + part@ =~= part@);
            if old(address)@.len() == 0 {
                assert(old(address)@ + part@ =~= part@);
            }
        }
    }
}

/// Composes the address of a property from the four columns that hold it.
pub fn compose_address(paon: &str, saon: &str, street: &str, city: &str) -> (address: String)
    ensures
        address@ == address_of(paon@, saon@, street@, city@),
{
    let mut address = String::new();
    add_part(&mut address, paon);
    add_part(&mut address, saon);
    add_part(&mut address, street);
    add_part(&mut address, city);
    address
}

} // verus!
