//! Virtual IP addresses: the 32-bit identifiers of the overlay.

use crate::text::{
    all_digits, decimal_value, digit_char, digits_of, is_digit, lemma_decimal_round_trip,
    lemma_fields_of_parts, numeral_digits, parse_decimal, push_decimal, split_at, split_fields,
    words_view,
};
use vstd::prelude::*;

verus! {

/// A virtual IP address, held as its four octets from first to last.
#[derive(Clone, Copy, Debug, PartialEq, Eq, Hash, Structural)]
pub struct VirtualIp(pub u8, pub u8, pub u8, pub u8);

/// What one octet of a dotted address stands for: one to three digits, no
/// leading zero before another digit, and a value of at most 255.
pub open spec fn parse_octet(s: Seq<char>) -> Option<u8> {
    if 1 <= s.len() <= 3 && all_digits(s) && (s.len() == 1 || s[0] != '0') && decimal_value(s)
        <= 255 {
        Some(decimal_value(s) as u8)
    } else {
        None
    }
}

/// What a dotted address stands for: exactly four octets parted by `.`.
pub open spec fn parse_ip(s: Seq<char>) -> Option<VirtualIp> {
    let f = split_fields(s, '.');
    if f.len() == 4 && parse_octet(f[0]) is Some && parse_octet(f[1]) is Some && parse_octet(
        f[2],
    ) is Some && parse_octet(f[3]) is Some {
        Some(
            VirtualIp(
                parse_octet(f[0])->0,
                parse_octet(f[1])->0,
                parse_octet(f[2])->0,
                parse_octet(f[3])->0,
            ),
        )
    } else {
        None
    }
}

/// Reads one octet of a dotted address.
pub fn read_octet(word: &[char]) -> (r: Option<u8>)
    ensures
        r == parse_octet(word@),
{
    if word.len() < 1 || word.len() > 3 {
        return None;
    }
    if word[0] == '+' {
        assert(!is_digit(word@[0]));
        return None;
    }
    if word.len() > 1 && word[0] == '0' {
        return None;
    }
    assert(numeral_digits(word@) == word@);
    match parse_decimal(word, 255) {
        Some(v) => Some(v as u8),
        None => None,
    }
}

impl VirtualIp {
    /// The address `a.b.c.d`.
    pub fn new(a: u8, b: u8, c: u8, d: u8) -> (ip: Self)
        ensures
            ip == VirtualIp(a, b, c, d),
    {
        VirtualIp(a, b, c, d)
    }

    /// The four octets, first to last.
    pub open spec fn spec_octets(self) -> Seq<u8> {
        seq![self.0, self.1, self.2, self.3]
    }

    /// The four octets, first to last.
    pub fn octets(&self) -> (o: [u8; 4])
        ensures
            o@ == self.spec_octets(),
    {
        let o = [self.0, self.1, self.2, self.3];
        assert(o@ =~= self.spec_octets());
        o
    }

    /// The address that four octets stand for.
    pub fn from_octets(o: [u8; 4]) -> (ip: Self)
        ensures
            ip.spec_octets() == o@,
    {
        let ip = VirtualIp(o[0], o[1], o[2], o[3]);
        assert(ip.spec_octets() =~= o@);
        ip
    }

    /// Reads a dotted address such as `10.0.0.1`.
    pub fn parse(text: &[char]) -> (r: Option<Self>)
        ensures
            r == parse_ip(text@),
    {
        let fields = split_at(text, '.');
        assert(words_view(fields@).len() == fields@.len());
        if fields.len() != 4 {
            return None;
        }
        assert(forall|k: int| 0 <= k < 4 ==> words_view(fields@)[k] == fields@[k]@);
        let a = read_octet(fields[0].as_slice());
        let b = read_octet(fields[1].as_slice());
        let c = read_octet(fields[2].as_slice());
        let d = read_octet(fields[3].as_slice());
        match (a, b, c, d) {
            (Some(a), Some(b), Some(c), Some(d)) => Some(VirtualIp::new(a, b, c, d)),
            _ => None,
        }
    }
}

/// The dotted form of an address.
pub open spec fn ip_text(ip: VirtualIp) -> Seq<char> {
    digits_of(ip.0 as nat) + seq!['.'] + digits_of(ip.1 as nat) + seq!['.'] + digits_of(
        ip.2 as nat,
    ) + seq!['.'] + digits_of(ip.3 as nat)
}

impl VirtualIp {
    /// Appends the dotted form of the address.
    pub fn push_to(&self, out: &mut Vec<char>)
        ensures
            final(out)@ == old(out)@ + ip_text(*self),
    {
        push_decimal(out, self.0 as u64);
        out.push('.');
        push_decimal(out, self.1 as u64);
        out.push('.');
        push_decimal(out, self.2 as u64);
        out.push('.');
        push_decimal(out, self.3 as u64);
        assert(out@ =~= old(out)@ + ip_text(*self));
    }
}

/// A numeral of more than one digit does not begin with a zero.
pub proof fn lemma_no_leading_zero(n: nat)
    requires
        n >= 10,
    ensures
        digits_of(n).len() >= 2,
        digits_of(n)[0] != '0',
    decreases n,
{
    if n / 10 >= 10 {
        lemma_no_leading_zero(n / 10);
    } else {
        assert(digits_of(n / 10) =~= seq![digit_char(n / 10)]);
    }
    assert(digits_of(n)[0] == digits_of(n / 10)[0]);
}

/// The numeral of an octet is read as that octet.
pub proof fn lemma_octet_round_trip(n: u8)
    ensures
        parse_octet(digits_of(n as nat)) == Some(n),
        forall|k: int| 0 <= k < digits_of(n as nat).len()
            ==> #[trigger] digits_of(n as nat)[k] != '.',
{
    let d = digits_of(n as nat);
    lemma_decimal_round_trip(n as nat, 255);
    if n >= 10 {
        lemma_no_leading_zero(n as nat);
        if n >= 100 {
            lemma_no_leading_zero((n / 10) as nat);
            assert(digits_of((n / 100) as nat).len() == 1);
            assert(digits_of((n / 10) as nat).len() == 2);
        } else {
            assert(digits_of((n / 10) as nat).len() == 1);
        }
    }
    assert forall|k: int| 0 <= k < d.len() implies #[trigger] d[k] != '.' by {
        assert(is_digit(d[k]));
    }
}

/// What is shown can be typed back: the dotted form of an address is read
/// as that address.
pub proof fn lemma_ip_round_trip(ip: VirtualIp)
    ensures
        parse_ip(ip_text(ip)) == Some(ip),
{
    let a = digits_of(ip.0 as nat);
    let b = digits_of(ip.1 as nat);
    let c = digits_of(ip.2 as nat);
    let d = digits_of(ip.3 as nat);
    lemma_octet_round_trip(ip.0);
    lemma_octet_round_trip(ip.1);
    lemma_octet_round_trip(ip.2);
    lemma_octet_round_trip(ip.3);
    let t3 = c + seq!['.'] + d;
    let t2 = b + seq!['.'] + t3;
    let t1 = a + seq!['.'] + t2;
    assert(ip_text(ip) =~= t1);
    lemma_fields_of_parts(d, '.', Seq::empty());
    lemma_fields_of_parts(c, '.', d);
    lemma_fields_of_parts(b, '.', t3);
    lemma_fields_of_parts(a, '.', t2);
    let f = split_fields(t1, '.');
    assert(f =~= seq![a, b, c, d]);
}

} // verus!
