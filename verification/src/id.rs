//! IFC identity.
//!
//! `GlobalId` is an `IfcGloballyUniqueId`: a 128-bit UUID compressed into 22 characters of
//! IFC's own base-64 alphabet. It is the only cross-system identity CADForge recognises.
//! Display names are never keys.
//!
//! IFC's alphabet is *not* RFC 4648: the order is digits, uppercase, lowercase, then `_` and
//! `$`. Byte 0 is written alone in two digits, then five groups of three bytes in four digits
//! each: 2 + 5 * 4 = 22 characters carrying 8 + 5 * 24 = 128 bits.

use vstd::prelude::*;
use crate::text::{chars_of, push_char};
use vstd::string::StringSliceAdditionalSpecFns;

verus! {

/// Length of an `IfcGloballyUniqueId` in characters.
pub const GLOBAL_ID_LEN: usize = 22;

/// The character for base-64 digit `d` in IFC's alphabet.
pub open spec fn alphabet_char(d: nat) -> char {
    if d < 10 {
        ((48 + d) as u32) as char
    } else if d < 36 {
        ((55 + d) as u32) as char
    } else if d < 62 {
        ((61 + d) as u32) as char
    } else if d == 62 {
        '_'
    } else {
        '$'
    }
}

/// The digit a character stands for in IFC's alphabet, if it is in it.
pub open spec fn digit_value(c: char) -> Option<nat> {
    if '0' <= c && c <= '9' {
        Some((c as int - 48) as nat)
    } else if 'A' <= c && c <= 'Z' {
        Some((c as int - 55) as nat)
    } else if 'a' <= c && c <= 'z' {
        Some((c as int - 61) as nat)
    } else if c == '_' {
        Some(62)
    } else if c == '$' {
        Some(63)
    } else {
        None
    }
}

/// The value of a character known to be in the alphabet.
pub open spec fn dv(c: char) -> nat {
    match digit_value(c) {
        Some(d) => d,
        None => 0,
    }
}

/// Whether every character is in the alphabet.
pub open spec fn all_in_alphabet(s: Seq<char>) -> bool {
    forall|i: int| 0 <= i < s.len() ==> (#[trigger] digit_value(s[i])) is Some
}

/// A well-formed `IfcGloballyUniqueId`: 22 alphabet characters, the first of which is a digit
/// `0`–`3`, because it carries only the two high bits of byte 0.
pub open spec fn valid_id(s: Seq<char>) -> bool {
    &&& s.len() == 22
    &&& all_in_alphabet(s)
    &&& dv(s[0]) <= 3
}

/// The low `n` base-64 digits of `v`, most significant first.
pub open spec fn digits(v: nat, n: nat) -> Seq<char>
    decreases n,
{
    if n == 0 {
        Seq::empty()
    } else {
        digits(v / 64, (n - 1) as nat).push(alphabet_char(v % 64))
    }
}

/// Group `g` (0 to 4) of bytes 1 to 15, as a 24-bit number.
pub open spec fn group_value(b: Seq<u8>, g: int) -> nat {
    (b[1 + 3 * g] as nat) * 65536 + (b[2 + 3 * g] as nat) * 256 + (b[3 + 3 * g] as nat)
}

/// Byte 0 in two digits, then the first `g` groups in four digits each.
pub open spec fn encoded_prefix(b: Seq<u8>, g: nat) -> Seq<char>
    decreases g,
{
    if g == 0 {
        digits(b[0] as nat, 2)
    } else {
        encoded_prefix(b, (g - 1) as nat) + digits(group_value(b, g - 1), 4)
    }
}

/// The identity 16 bytes compress to.
pub open spec fn encode(b: Seq<u8>) -> Seq<char> {
    encoded_prefix(b, 5)
}

/// The 24-bit number four digits starting at `at` stand for.
pub open spec fn four_digit_value(s: Seq<char>, at: int) -> nat {
    ((dv(s[at]) * 64 + dv(s[at + 1])) * 64 + dv(s[at + 2])) * 64 + dv(s[at + 3])
}

/// Byte `k` of the 16 an identity expands to.
pub open spec fn decoded_byte(s: Seq<char>, k: int) -> u8 {
    if k == 0 {
        ((dv(s[0]) * 64 + dv(s[1])) % 256) as u8
    } else {
        let g = (k - 1) / 3;
        let o = (k - 1) % 3;
        let v = four_digit_value(s, 2 + 4 * g);
        if o == 0 {
            ((v / 65536) % 256) as u8
        } else if o == 1 {
            ((v / 256) % 256) as u8
        } else {
            (v % 256) as u8
        }
    }
}

/// The 16 bytes an identity expands to.
pub open spec fn decode(s: Seq<char>) -> Seq<u8> {
    Seq::new(16, |k: int| decoded_byte(s, k))
}

/// Reasons a string is not a valid `IfcGloballyUniqueId`.
#[derive(Debug, Clone, Copy, PartialEq, Eq, Structural)]
pub enum GlobalIdError {
    /// Expected 22 bytes, got this many.
    WrongLength(usize),
    /// A character outside the IFC base-64 alphabet.
    InvalidChar(char),
    /// The leading character encodes the high bits of byte 0, so it can only be `0`–`3`.
    Overflow(char),
}

/// A stable, IFC-compatible element identity.
#[derive(Debug, Eq, PartialOrd, Ord, Hash)]
pub struct GlobalId(String);

impl View for GlobalId {
    type V = Seq<char>;

    closed spec fn view(&self) -> Seq<char> {
        self.0@
    }
}

impl PartialEq for GlobalId {
    fn eq(&self, other: &Self) -> (r: bool) {
        self.0 == other.0
    }
}

impl vstd::std_specs::cmp::PartialEqSpecImpl for GlobalId {
    open spec fn obeys_eq_spec() -> bool {
        true
    }

    open spec fn eq_spec(&self, other: &Self) -> bool {
        self@ == other@
    }
}

impl Clone for GlobalId {
    fn clone(&self) -> (r: Self)
        ensures
            r == *self,
    {
        proof { use_type_invariant(self); }
        GlobalId(self.0.clone())
    }
}

/// The character for digit `d`.
fn alphabet(d: u32) -> (r: char)
    requires
        d < 64,
    ensures
        r == alphabet_char(d as nat),
{
    if d < 10 {
        ((48 + d) as u8) as char
    } else if d < 36 {
        ((55 + d) as u8) as char
    } else if d < 62 {
        ((61 + d) as u8) as char
    } else if d == 62 {
        '_'
    } else {
        '$'
    }
}

/// Append the low `n` base-64 digits of `v` to `out`, most significant first.
pub fn push_digits(v: u32, n: usize, out: &mut String)
    ensures
        final(out)@ == old(out)@ + digits(v as nat, n as nat),
    decreases n,
{
    if n == 0 {
        assert(old(out)@ + digits(v as nat, 0) =~= old(out)@);
        return;
    }
    push_digits(v / 64, n - 1, out);
    push_char(out, alphabet(v % 64));
    assert(old(out)@ + digits(v as nat, n as nat) =~= old(out)@ + digits((v / 64) as nat, (n - 1) as nat) + seq![alphabet_char((v % 64) as nat)]);
}

/// The digit `c` stands for, if it is in the alphabet.
pub fn digit_of(c: char) -> (r: Option<u32>)
    ensures
        match digit_value(c) {
            Some(d) => r == Some(d as u32),
            None => r is None,
        },
{
    if '0' <= c && c <= '9' {
        Some(c as u32 - 48)
    } else if 'A' <= c && c <= 'Z' {
        Some(c as u32 - 55)
    } else if 'a' <= c && c <= 'z' {
        Some(c as u32 - 61)
    } else if c == '_' {
        Some(62)
    } else if c == '$' {
        Some(63)
    } else {
        None
    }
}

proof fn lemma_prefix_len(b: Seq<u8>, g: nat)
    ensures
        encoded_prefix(b, g).len() == 2 + 4 * g,
    decreases g,
{
    lemma_digits_len(b[0] as nat, 2);
    if g > 0 {
        lemma_prefix_len(b, (g - 1) as nat);
        lemma_digits_len(group_value(b, g - 1), 4);
    }
}

proof fn lemma_digits_len(v: nat, n: nat)
    ensures
        digits(v, n).len() == n,
    decreases n,
{
    if n > 0 {
        lemma_digits_len(v / 64, (n - 1) as nat);
    }
}

proof fn lemma_digits2(v: nat)
    requires
        v < 256,
    ensures
        digits(v, 2) == seq![alphabet_char(v / 64), alphabet_char(v % 64)],
{
    reveal_with_fuel(digits, 3);
    assert(digits(v / 64 / 64, 0) =~= Seq::<char>::empty());
    assert((v / 64) % 64 == v / 64);
    assert(digits(v, 2) =~= seq![alphabet_char(v / 64), alphabet_char(v % 64)]);
}

proof fn lemma_digits4(v: nat)
    requires
        v < 16777216,
    ensures
        digits(v, 4) == seq![
            alphabet_char(v / 262144),
            alphabet_char((v / 4096) % 64),
            alphabet_char((v / 64) % 64),
            alphabet_char(v % 64),
        ],
{
    assert(v / 64 / 64 == v / 4096) by (nonlinear_arith)
        requires
            v >= 0,
    {
        vstd::arithmetic::div_mod::lemma_div_denominator(v as int, 64, 64);
    }
    assert(v / 4096 / 64 == v / 262144) by (nonlinear_arith)
        requires
            v >= 0,
    {
        vstd::arithmetic::div_mod::lemma_div_denominator(v as int, 4096, 64);
    }
    assert(v / 262144 < 64);
    assert((v / 262144) % 64 == v / 262144);
    reveal_with_fuel(digits, 5);
    assert(digits(v / 262144 / 64, 0) =~= Seq::<char>::empty());
    assert(digits(v, 4) =~= seq![
        alphabet_char(v / 262144),
        alphabet_char((v / 4096) % 64),
        alphabet_char((v / 64) % 64),
        alphabet_char(v % 64),
    ]);
}

proof fn lemma_alphabet_roundtrip(d: nat)
    requires
        d < 64,
    ensures
        digit_value(alphabet_char(d)) == Some(d),
{
}

proof fn lemma_encoded_prefix_parts(b: Seq<u8>, g: nat, j: int)
    requires
        0 <= j < g,
    ensures
        encoded_prefix(b, g).subrange(2 + 4 * j, 6 + 4 * j) == digits(group_value(b, j), 4),
        encoded_prefix(b, g).subrange(0, 2) == digits(b[0] as nat, 2),
    decreases g,
{
    lemma_prefix_len(b, (g - 1) as nat);
    lemma_digits_len(group_value(b, g - 1), 4);
    lemma_digits_len(b[0] as nat, 2);
    let p = encoded_prefix(b, (g - 1) as nat);
    let q = digits(group_value(b, g - 1), 4);
    assert(encoded_prefix(b, g) == p + q);
    if j < g - 1 {
        lemma_encoded_prefix_parts(b, (g - 1) as nat, j);
        assert((p + q).subrange(2 + 4 * j, 6 + 4 * j) =~= p.subrange(2 + 4 * j, 6 + 4 * j));
    } else {
        assert((p + q).subrange(2 + 4 * j, 6 + 4 * j) =~= q);
    }
    if g - 1 == 0 {
        assert((p + q).subrange(0, 2) =~= p);
    } else {
        lemma_encoded_prefix_parts(b, (g - 1) as nat, 0);
        assert((p + q).subrange(0, 2) =~= p.subrange(0, 2));
    }
}

/// The characters of `encode(b)` at each position, digit by digit.
proof fn lemma_encode_chars(b: Seq<u8>)
    requires
        b.len() == 16,
    ensures
        encode(b).len() == 22,
        encode(b)[0] == alphabet_char((b[0] as nat) / 64),
        encode(b)[1] == alphabet_char((b[0] as nat) % 64),
        forall|g: int| #![trigger group_value(b, g)] 0 <= g < 5 ==> {
            let v = group_value(b, g);
            &&& encode(b)[2 + 4 * g] == alphabet_char(v / 262144)
            &&& encode(b)[3 + 4 * g] == alphabet_char((v / 4096) % 64)
            &&& encode(b)[4 + 4 * g] == alphabet_char((v / 64) % 64)
            &&& encode(b)[5 + 4 * g] == alphabet_char(v % 64)
        },
{
    lemma_prefix_len(b, 5);
    lemma_encoded_prefix_parts(b, 5, 0);
    lemma_digits2(b[0] as nat);
    let e = encode(b);
    assert(e[0] == e.subrange(0, 2)[0]);
    assert(e[1] == e.subrange(0, 2)[1]);
    assert forall|g: int| #![trigger group_value(b, g)] 0 <= g < 5 implies {
        let v = group_value(b, g);
        &&& e[2 + 4 * g] == alphabet_char(v / 262144)
        &&& e[3 + 4 * g] == alphabet_char((v / 4096) % 64)
        &&& e[4 + 4 * g] == alphabet_char((v / 64) % 64)
        &&& e[5 + 4 * g] == alphabet_char(v % 64)
    } by {
        lemma_encoded_prefix_parts(b, 5, g);
        let v = group_value(b, g);
        assert(v < 16777216);
        lemma_digits4(v);
        let part = e.subrange(2 + 4 * g, 6 + 4 * g);
        assert(e[2 + 4 * g] == part[0]);
        assert(e[3 + 4 * g] == part[1]);
        assert(e[4 + 4 * g] == part[2]);
        assert(e[5 + 4 * g] == part[3]);
    }
}

/// Every identity `encode` produces is well formed.
pub proof fn lemma_encode_valid(b: Seq<u8>)
    requires
        b.len() == 16,
    ensures
        valid_id(encode(b)),
{
    lemma_encode_chars(b);
    let e = encode(b);
    assert forall|i: int| 0 <= i < e.len() implies (#[trigger] digit_value(e[i])) is Some by {
        if i >= 2 {
            let g = (i - 2) / 4;
            let v = group_value(b, g);
            assert(v / 262144 < 64);
            if (i - 2) % 4 == 0 {
                assert(i == 2 + 4 * g);
                lemma_alphabet_roundtrip(v / 262144);
            } else if (i - 2) % 4 == 1 {
                assert(i == 3 + 4 * g);
                lemma_alphabet_roundtrip((v / 4096) % 64);
            } else if (i - 2) % 4 == 2 {
                assert(i == 4 + 4 * g);
                lemma_alphabet_roundtrip((v / 64) % 64);
            } else {
                assert(i == 5 + 4 * g);
                lemma_alphabet_roundtrip(v % 64);
            }
        } else if i == 0 {
            lemma_alphabet_roundtrip((b[0] as nat) / 64);
        } else {
            lemma_alphabet_roundtrip((b[0] as nat) % 64);
        }
    }
    lemma_alphabet_roundtrip((b[0] as nat) / 64);
}

proof fn lemma_group_roundtrip(b1: nat, b2: nat, b3: nat)
    requires
        b1 < 256,
        b2 < 256,
        b3 < 256,
    ensures
        ({
            let v = b1 * 65536 + b2 * 256 + b3;
            let w = (((v / 262144) * 64 + (v / 4096) % 64) * 64 + (v / 64) % 64) * 64 + v % 64;
            &&& w == v
            &&& (w / 65536) % 256 == b1
            &&& (w / 256) % 256 == b2
            &&& w % 256 == b3
        }),
{
    let v = b1 * 65536 + b2 * 256 + b3;
    assert(v < 16777216);
    assert((((v / 262144) * 64 + (v / 4096) % 64) * 64 + (v / 64) % 64) * 64 + v % 64 == v) by (nonlinear_arith)
        requires
            0 <= v < 16777216,
    {
        vstd::arithmetic::div_mod::lemma_fundamental_div_mod(v as int, 64);
        vstd::arithmetic::div_mod::lemma_fundamental_div_mod((v / 64) as int, 64);
        vstd::arithmetic::div_mod::lemma_fundamental_div_mod((v / 4096) as int, 64);
        vstd::arithmetic::div_mod::lemma_div_denominator(v as int, 64, 64);
        vstd::arithmetic::div_mod::lemma_div_denominator(v as int, 4096, 64);
    }
    assert((v / 65536) % 256 == b1 && (v / 256) % 256 == b2 && v % 256 == b3) by (nonlinear_arith)
        requires
            v == b1 * 65536 + b2 * 256 + b3,
            b1 < 256,
            b2 < 256,
            b3 < 256,
    {
        vstd::arithmetic::div_mod::lemma_fundamental_div_mod(v as int, 256);
        vstd::arithmetic::div_mod::lemma_fundamental_div_mod(v as int, 65536);
    }
}

/// Expanding what `encode` compressed gives back the bytes.
pub proof fn lemma_decode_encode(b: Seq<u8>)
    requires
        b.len() == 16,
    ensures
        decode(encode(b)) == b,
{
    lemma_encode_chars(b);
    let e = encode(b);
    assert forall|k: int| 0 <= k < 16 implies #[trigger] decoded_byte(e, k) == b[k] by {
        if k == 0 {
            lemma_alphabet_roundtrip((b[0] as nat) / 64);
            lemma_alphabet_roundtrip((b[0] as nat) % 64);
            assert(((b[0] as nat) / 64) * 64 + (b[0] as nat) % 64 == b[0] as nat);
        } else {
            let g = (k - 1) / 3;
            let v = group_value(b, g);
            assert(v / 262144 < 64);
            lemma_alphabet_roundtrip(v / 262144);
            lemma_alphabet_roundtrip((v / 4096) % 64);
            lemma_alphabet_roundtrip((v / 64) % 64);
            lemma_alphabet_roundtrip(v % 64);
            lemma_group_roundtrip(b[1 + 3 * g] as nat, b[2 + 3 * g] as nat, b[3 + 3 * g] as nat);
            assert(four_digit_value(e, 2 + 4 * g) == v);
        }
    }
    assert(decode(e) =~= b);
}

impl GlobalId {
    #[verifier::type_invariant]
    closed spec fn well_formed(self) -> bool {
        valid_id(self.0@)
    }

    /// Every identity is well formed: 22 alphabet characters, the first `0`–`3`.
    pub fn is_valid(&self) -> (r: bool)
        ensures
            r,
            valid_id(self@),
    {
        proof { use_type_invariant(self); }
        true
    }

    /// Mint a fresh identity from a random UUID.
    pub fn new() -> (r: Self)
        ensures
            valid_id(r@),
    {
        Self::from_uuid(random_uuid())
    }

    /// Compress a UUID into IFC's 22-character form.
    pub fn from_uuid(uuid: uuid::Uuid) -> (r: Self)
        ensures
            valid_id(r@),
            exists|b: Seq<u8>| b.len() == 16 && r@ == encode(b),
            r@ == encode(uuid_bytes_of(uuid)),
    {
        let bytes = uuid_bytes(&uuid);
        Self::from_bytes(bytes)
    }

    /// Build from raw bytes.
    ///
    /// Used to derive *deterministic* identities: an exporter that mints a random GlobalId
    /// for each synthesised entity produces a different file every run.
    pub fn from_bytes(bytes: [u8; 16]) -> (r: Self)
        ensures
            r@ == encode(bytes@),
            valid_id(r@),
    {
        let mut out = String::new();
        push_digits(bytes[0] as u32, 2, &mut out);
        assert(out@ =~= encoded_prefix(bytes@, 0));
        let mut g: usize = 0;
        while g < 5
            invariant
                g <= 5,
                out@ == encoded_prefix(bytes@, g as nat),
            decreases 5 - g,
        {
            let v = ((bytes[1 + 3 * g] as u32) << 16) | ((bytes[2 + 3 * g] as u32) << 8) | (bytes[3 + 3 * g] as u32);
            proof {
                let b1 = bytes[1 + 3 * g];
                let b2 = bytes[2 + 3 * g];
                let b3 = bytes[3 + 3 * g];
                assert(((b1 as u32) << 16) | ((b2 as u32) << 8) | (b3 as u32)
                    == (b1 as u32) * 65536 + (b2 as u32) * 256 + (b3 as u32)) by (bit_vector);
                assert(v as nat == group_value(bytes@, g as int));
            }
            push_digits(v, 4, &mut out);
            g += 1;
        }
        proof { lemma_encode_valid(bytes@); }
        GlobalId(out)
    }

    /// Accept an identity that came from a file, validating it rather than trusting it.
    ///
    /// Imported IFC is untrusted input.
    pub fn parse(s: &str) -> (r: Result<Self, GlobalIdError>)
        ensures
            match r {
                Ok(id) => id@ == s@ && valid_id(s@) && s.len() == 22,
                Err(GlobalIdError::WrongLength(n)) => n == s.len() && s.len() != 22,
                Err(GlobalIdError::InvalidChar(c)) => s.len() == 22 && exists|i: int|
                    0 <= i < s@.len() && s@[i] == c && digit_value(c) is None
                    && all_in_alphabet(s@.take(i)),
                Err(GlobalIdError::Overflow(c)) => s.len() == 22 && all_in_alphabet(s@)
                    && s@.len() > 0 && c == s@[0] && dv(c) > 3,
            },
            r is Ok <==> (s.len() == 22 && valid_id(s@)),
    {
        if s.len() != GLOBAL_ID_LEN {
            proof {
                if valid_id(s@) {
                    lemma_ascii_byte_len(s);
                }
            }
            return Err(GlobalIdError::WrongLength(s.len()));
        }
        let cs = chars_of(s);
        let mut i: usize = 0;
        while i < cs.len()
            invariant
                cs@ == s@,
                s.len() == 22,
                i <= cs.len(),
                all_in_alphabet(cs@.take(i as int)),
            decreases cs.len() - i,
        {
            if digit_of(cs[i]).is_none() {
                assert(s@[i as int] == cs@[i as int]);
                assert(cs@.take(i as int) == s@.take(i as int));
                let ghost c = cs@[i as int];
                assert(0 <= i < s@.len() && s@[i as int] == c && digit_value(c) is None && all_in_alphabet(s@.take(i as int)));
                assert(!all_in_alphabet(s@));
                return Err(GlobalIdError::InvalidChar(cs[i]));
            }
            assert forall|j: int| 0 <= j < i + 1 implies (#[trigger] digit_value(cs@.take(i + 1)[j])) is Some by {
                if j < i {
                    assert(cs@.take(i + 1)[j] == cs@.take(i as int)[j]);
                }
            }
            i += 1;
        }
        assert(cs@.take(cs.len() as int) =~= cs@);
        proof { lemma_ascii_byte_len(s); }
        let lead = cs[0];
        let d = digit_of(lead);
        match d {
            Some(v) => {
                if v > 3 {
                    return Err(GlobalIdError::Overflow(lead));
                }
            },
            None => {},
        }
        Ok(GlobalId(s.to_owned()))
    }

    /// The 16 bytes this identity stands for.
    pub fn to_bytes(&self) -> (r: [u8; 16])
        ensures
            r@ == decode(self@),
    {
        proof { use_type_invariant(self); }
        let cs = chars_of(self.0.as_str());
        let mut d: Vec<u32> = Vec::new();
        let mut i: usize = 0;
        while i < cs.len()
            invariant
                cs@ == self@,
                valid_id(self@),
                i <= cs.len(),
                d.len() == i,
                forall|j: int| 0 <= j < i ==> d@[j] as nat == dv(cs@[j]) && d@[j] < 64,
            decreases cs.len() - i,
        {
            let v = match digit_of(cs[i]) {
                Some(v) => v,
                None => 0,
            };
            assert(digit_value(cs@[i as int]) is Some);
            d.push(v);
            i += 1;
        }
        let mut bytes: [u8; 16] = [0u8; 16];
        bytes[0] = ((d[0] * 64 + d[1]) % 256) as u8;
        let mut g: usize = 0;
        while g < 5
            invariant
                g <= 5,
                d.len() == 22,
                forall|j: int| 0 <= j < 22 ==> d@[j] as nat == dv(self@[j]) && d@[j] < 64,
                self@.len() == 22,
                bytes@.len() == 16,
                forall|k: int| 0 <= k < 1 + 3 * g ==> bytes@[k] == #[trigger] decoded_byte(self@, k),
            decreases 5 - g,
        {
            let at = 2 + 4 * g;
            let v = ((d[at] * 64 + d[at + 1]) * 64 + d[at + 2]) * 64 + d[at + 3];
            assert(v as nat == four_digit_value(self@, at as int));
            bytes[1 + 3 * g] = ((v / 65536) % 256) as u8;
            bytes[2 + 3 * g] = ((v / 256) % 256) as u8;
            bytes[3 + 3 * g] = (v % 256) as u8;
            proof {
                assert forall|k: int| 0 <= k < 1 + 3 * (g + 1) implies bytes@[k] == #[trigger] decoded_byte(self@, k) by {
                    if k >= 1 + 3 * g {
                        assert((k - 1) / 3 == g as int);
                    }
                }
            }
            g += 1;
        }
        assert(bytes@ =~= decode(self@));
        bytes
    }

    /// Expand back to a UUID. Round-trips with [`GlobalId::from_uuid`].
    pub fn to_uuid(&self) -> (r: uuid::Uuid)
        ensures
            uuid_bytes_of(r) == decode(self@),
    {
        uuid_from_bytes(self.to_bytes())
    }

    /// The identity as text.
    pub fn as_str(&self) -> (r: &str)
        ensures
            r@ == self@,
    {
        self.0.as_str()
    }
}

/// A string of ASCII characters is as many bytes long as it is characters long.
proof fn lemma_ascii_byte_len(s: &str)
    requires
        all_in_alphabet(s@),
    ensures
        s.spec_bytes().len() == s@.len(),
{
    assert(vstd::utf8::is_ascii_chars(s@)) by {
        assert forall|i: int| 0 <= i < s@.len() implies '\0' <= #[trigger] s@[i] <= '\u{7f}' by {
            assert(digit_value(s@[i]) is Some);
        }
    }
    vstd::utf8::is_ascii_chars_encode_utf8(s@);
}

/// Compressing 16 bytes and expanding them again gives the same bytes.
pub proof fn lemma_bytes_round_trip(b: Seq<u8>)
    requires
        b.len() == 16,
    ensures
        valid_id(encode(b)),
        decode(encode(b)) == b,
{
    lemma_encode_valid(b);
    lemma_decode_encode(b);
}

#[verifier::external_type_specification]
#[verifier::external_body]
pub struct ExUuid(uuid::Uuid);

/// `uuid::Uuid::new_v4`: a random version-4 UUID.
#[verifier::external_body]
fn random_uuid() -> uuid::Uuid {
    uuid::Uuid::new_v4()
}

/// The 16 bytes a UUID holds, big-endian.
pub uninterp spec fn uuid_bytes_of(u: uuid::Uuid) -> Seq<u8>;

/// `uuid::Uuid::as_bytes`: the UUID's 16 bytes, big-endian.
///
/// Claims that the bytes are the ones the UUID holds.
#[verifier::external_body]
fn uuid_bytes(u: &uuid::Uuid) -> (r: [u8; 16])
    ensures
        r@ == uuid_bytes_of(*u),
{
    *u.as_bytes()
}

/// `uuid::Uuid::from_bytes`: the UUID with these 16 bytes.
///
/// Claims that the UUID holds exactly the bytes it was made from.
#[verifier::external_body]
fn uuid_from_bytes(b: [u8; 16]) -> (r: uuid::Uuid)
    ensures
        uuid_bytes_of(r) == b@,
{
    uuid::Uuid::from_bytes(b)
}

impl Default for GlobalId {
    fn default() -> (r: Self)
        ensures
            valid_id(r@),
    {
        Self::new()
    }
}

}
