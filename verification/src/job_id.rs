use vstd::prelude::*;
use vstd::string::StringExecFns;

verus! {

/// Identifier of a job: the 128 bits of a UUID.
#[derive(Clone, Copy, Debug, PartialEq, Eq, Hash, Structural)]
pub struct JobId(pub u128);

/// The sixteen digits of lower-case hexadecimal.
pub open spec fn hex_digits() -> Seq<char> {
    seq!['0', '1', '2', '3', '4', '5', '6', '7', '8', '9', 'a', 'b', 'c', 'd', 'e', 'f']
}

/// The lowest `digits` hexadecimal digits of a number, the highest first.
pub open spec fn hex(value: nat, digits: nat) -> Seq<char>
    decreases digits,
{
    if digits == 0 {
        Seq::empty()
    } else {
        hex(value / 16, (digits - 1) as nat).push(hex_digits()[(value % 16) as int])
    }
}

/// The text of the UUID with these 128 bits: its 32 hexadecimal digits in
/// lower case, in groups of 8, 4, 4, 4 and 12 with a hyphen between them.
pub open spec fn uuid_text(value: u128) -> Seq<char> {
    let bits = value as nat;
    hex(bits / 0x1_0000_0000_0000_0000_0000_0000, 8) + seq!['-'] + hex(
        bits / 0x1_0000_0000_0000_0000_0000,
        4,
    ) + seq!['-'] + hex(bits / 0x1_0000_0000_0000_0000, 4) + seq!['-'] + hex(
        bits / 0x1_0000_0000_0000,
        4,
    ) + seq!['-'] + hex(bits, 12)
}

/// The 128 bits of the UUID that the `uuid` crate reads from a text, where it
/// accepts the text.
pub uninterp spec fn parsed_uuid(text: Seq<char>) -> Option<u128>;

/// Whether the 128 bits are those of a random UUID: the version field holds
/// 4, and the variant field begins with the bits 1 and 0. The other 122 bits
/// are free.
pub open spec fn is_random_uuid(value: u128) -> bool {
    value & 0x0000_0000_0000_f000_c000_0000_0000_0000 == 0x0000_0000_0000_4000_8000_0000_0000_0000
}

/// Draws a random version-4 UUID with `uuid::Uuid::new_v4` and hands out its
/// 128 bits. The crate takes 128 bits from the operating system's random
/// source and sets the version and variant fields over them, so of the value
/// only those two fields are claimed.
#[verifier::external_body]
fn random_uuid() -> (value: u128)
    ensures
        is_random_uuid(value),
{
    uuid::Uuid::new_v4().as_u128()
}

/// The digit that stands for a number below sixteen.
fn hex_digit(n: u128) -> (digit: &'static str)
    requires
        n < 16,
    ensures
        digit@ == seq![hex_digits()[n as int]],
{
    proof {
        reveal_strlit("0");
        reveal_strlit("1");
        reveal_strlit("2");
        reveal_strlit("3");
        reveal_strlit("4");
        reveal_strlit("5");
        reveal_strlit("6");
        reveal_strlit("7");
        reveal_strlit("8");
        reveal_strlit("9");
        reveal_strlit("a");
        reveal_strlit("b");
        reveal_strlit("c");
        reveal_strlit("d");
        reveal_strlit("e");
        reveal_strlit("f");
    }
    let digit = if n == 0 {
        "0"
    } else if n == 1 {
        "1"
    } else if n == 2 {
        "2"
    } else if n == 3 {
        "3"
    } else if n == 4 {
        "4"
    } else if n == 5 {
        "5"
    } else if n == 6 {
        "6"
    } else if n == 7 {
        "7"
    } else if n == 8 {
        "8"
    } else if n == 9 {
        "9"
    } else if n == 10 {
        "a"
    } else if n == 11 {
        "b"
    } else if n == 12 {
        "c"
    } else if n == 13 {
        "d"
    } else if n == 14 {
        "e"
    } else {
        "f"
    };
    assert(digit@ =~= seq![hex_digits()[n as int]]);
    digit
}

/// Writes the lowest `digits` hexadecimal digits of `value` behind `out`.
fn write_hex(value: u128, digits: u8, out: &mut String)
    ensures
        final(out)@ == old(out)@ + hex(value as nat, digits as nat),
    decreases digits,
{
    if digits == 0 {
        assert(out@ + hex(value as nat, 0) =~= out@);
    } else {
        let ghost before = out@;
        write_hex(value / 16, digits - 1, out);
        out.append(hex_digit(value % 16));
        assert(out@ =~= before + hex(value as nat, digits as nat));
    }
}

/// Reads a UUID with `uuid::Uuid::parse_str`. The contract only names the
/// result: `None` stands for a text that the crate rejects.
#[verifier::external_body]
fn read_uuid(text: &str) -> (value: Option<u128>)
    ensures
        value == parsed_uuid(text@),
{
    uuid::Uuid::parse_str(text).ok().map(|id| id.as_u128())
}

impl JobId {
    /// A fresh random identifier: a version-4 UUID, whose free bits are drawn
    /// at random.
    pub fn generate() -> (id: JobId)
        ensures
            is_random_uuid(id.0),
    {
        JobId(random_uuid())
    }

    /// The identifier as it travels in messages.
    pub fn to_text(self) -> (text: String)
        ensures
            text@ == uuid_text(self.0),
    {
        proof {
            reveal_strlit("-");
        }
        let mut text = String::new();
        write_hex(self.0 / 0x1_0000_0000_0000_0000_0000_0000, 8, &mut text);
        text.append("-");
        write_hex(self.0 / 0x1_0000_0000_0000_0000_0000, 4, &mut text);
        text.append("-");
        write_hex(self.0 / 0x1_0000_0000_0000_0000, 4, &mut text);
        text.append("-");
        write_hex(self.0 / 0x1_0000_0000_0000, 4, &mut text);
        text.append("-");
        write_hex(self.0, 12, &mut text);
        assert(text@ =~= uuid_text(self.0));
        text
    }

    /// Reads an identifier from a message field. `Some` exactly for the texts
    /// that are UUIDs.
    pub fn parse(text: &str) -> (id: Option<JobId>)
        ensures
            id == match parsed_uuid(text@) {
                Some(value) => Some(JobId(value)),
                None => None,
            },
    {
        match read_uuid(text) {
            Some(value) => Some(JobId(value)),
            None => None,
        }
    }
}

} // verus!
