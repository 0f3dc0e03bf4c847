//! Time-sortable message and chat identifiers (ULIDs): minting, and reading
//! the creation time back out of an identifier.
use vstd::prelude::*;
use crate::text::lex_lt;

verus! {

/// The Crockford base-32 digits in lower case, in increasing order.
pub open spec fn crockford_lower() -> Seq<char> {
    seq![
        '0', '1', '2', '3', '4', '5', '6', '7', '8', '9', 'a', 'b', 'c', 'd', 'e', 'f',
        'g', 'h', 'j', 'k', 'm', 'n', 'p', 'q', 'r', 's', 't', 'v', 'w', 'x', 'y', 'z',
    ]
}

/// The value of a base-32 digit, in either case; `None` for any other character.
pub open spec fn digit_value(c: char) -> Option<nat> {
    if exists|i: int| 0 <= i < 32 && (#[trigger] crockford_alphabet()[i] == c || crockford_lower()[i] == c) {
        Some((choose|i: int| 0 <= i < 32 && (#[trigger] crockford_alphabet()[i] == c || crockford_lower()[i] == c)) as nat)
    } else {
        None
    }
}

/// The number the digits spell, most significant first (an invalid digit
/// counts as 0).
pub open spec fn base32_value(s: Seq<char>) -> nat
    decreases s.len(),
{
    if s.len() == 0 {
        0
    } else {
        base32_value(s.drop_last()) * 32 + match digit_value(s.last()) {
            Some(d) => d,
            None => 0,
        }
    }
}

/// The 128-bit value that a 26-character identifier decodes to: its digits'
/// number, of which the low 128 bits are kept; `None` where the text is not
/// 26 base-32 digits.
pub open spec fn ulid_decode_of(s: Seq<char>) -> Option<u128> {
    if s.len() == 26 && forall|i: int| 0 <= i < 26 ==> #[trigger] digit_value(s[i]) is Some {
        Some((base32_value(s) % 0x1_0000_0000_0000_0000_0000_0000_0000_0000nat) as u128)
    } else {
        None
    }
}

/// Relies on `ulid::Ulid::from_string`: decodes 26 Crockford base-32
/// digits of either case, shifting each in from the low end of a 128-bit
/// value, and fails on any other text.
#[verifier::external_body]
fn decode_ulid(s: &str) -> (r: Option<u128>)
    ensures
        r == ulid_decode_of(s@),
{
    ulid::Ulid::from_string(s).ok().map(|u| u.0)
}

/// The Crockford base-32 digits, in increasing order.
pub open spec fn crockford_alphabet() -> Seq<char> {
    seq![
        '0', '1', '2', '3', '4', '5', '6', '7', '8', '9', 'A', 'B', 'C', 'D', 'E', 'F',
        'G', 'H', 'J', 'K', 'M', 'N', 'P', 'Q', 'R', 'S', 'T', 'V', 'W', 'X', 'Y', 'Z',
    ]
}

/// The last `n` base-32 digits of `v`, most significant first.
pub open spec fn base32_text(v: nat, n: nat) -> Seq<char>
    decreases n,
{
    if n == 0 {
        Seq::empty()
    } else {
        base32_text(v / 32, (n - 1) as nat).push(crockford_alphabet()[(v % 32) as int])
    }
}

/// The canonical text of an identifier value: its 26 base-32 digits.
pub open spec fn ulid_text(v: u128) -> Seq<char> {
    base32_text(v as nat, 26)
}

/// Relies on `ulid::Ulid::to_string`: the 26 base-32 digits of the value,
/// most significant first, which `ulid::Ulid::from_string` decodes back to
/// the same value.
#[verifier::external_body]
fn encode_ulid(v: u128) -> (r: String)
    ensures
        r@ == ulid_text(v),
        ulid_decode_of(r@) == Some(v),
{
    ulid::Ulid(v).to_string()
}

/// Relies on `ulid::Ulid::new`: a value built from the clock and a random
/// source, of which nothing is promised here.
#[verifier::external_body]
fn fresh_ulid() -> (r: u128) {
    ulid::Ulid::new().0
}

#[verifier::external_type_specification]
#[verifier::external_body]
pub struct ExGenerator(ulid::Generator);

/// Relies on `ulid::Generator::new`: a generator that has issued nothing.
#[verifier::external_body]
fn new_generator() -> (r: ulid::Generator) {
    ulid::Generator::new()
}

/// Relies on `ulid::Generator::generate`: the next value of the generator,
/// or `None` where its random bits would overflow. Nothing is promised here
/// of the value; the caller checks its order.
#[verifier::external_body]
fn generate_ulid(g: &mut ulid::Generator) -> (r: Option<u128>) {
    g.generate().ok().map(|u| u.0)
}

/// Mints message identifiers in strictly increasing order.
pub struct IdMinter {
    generator: ulid::Generator,
    last: u128,
}

impl IdMinter {
    /// The value of the last identifier issued (0 before the first).
    pub closed spec fn last_issued(&self) -> u128 {
        self.last
    }

    pub fn new() -> (r: IdMinter)
        ensures
            r.last_issued() == 0,
    {
        IdMinter { generator: new_generator(), last: 0 }
    }

    /// A fresh identifier, greater than every one issued before, with the
    /// creation time it carries; `None` where none can be issued in order.
    pub fn mint(&mut self) -> (r: Option<(String, u64)>)
        ensures
            match r {
                Some((id, ts)) => {
                    &&& final(self).last_issued() > old(self).last_issued()
                    &&& id@ == ulid_text(final(self).last_issued())
                    &&& ulid_decode_of(id@) == Some(final(self).last_issued())
                    &&& id@.len() == 26
                    &&& id_timestamp_of(id@) == Some(ts)
                },
                None => final(self).last_issued() == old(self).last_issued(),
            },
    {
        let drawn = generate_ulid(&mut self.generator);
        let r = accept_drawn(self.last, drawn);
        if r.is_some() {
            self.last = drawn.unwrap();
            proof {
                lemma_ulid_text_order(0, 1);
                lemma_base32_len(self.last as nat, 26);
            }
        }
        r
    }
}

/// 32 to the power `n`.
pub open spec fn pow32(n: nat) -> nat
    decreases n,
{
    if n == 0 { 1 } else { 32 * pow32((n - 1) as nat) }
}

proof fn lemma_alphabet_increasing(i: int, j: int)
    requires
        0 <= i < j < 32,
    ensures
        (crockford_alphabet()[i] as int) < (crockford_alphabet()[j] as int),
    decreases j - i,
{
    let a = crockford_alphabet();
    assert(a[0] == '0' && a[1] == '1' && a[2] == '2' && a[3] == '3' && a[4] == '4' && a[5] == '5');
    assert(a[6] == '6' && a[7] == '7' && a[8] == '8' && a[9] == '9' && a[10] == 'A' && a[11] == 'B');
    assert(a[12] == 'C' && a[13] == 'D' && a[14] == 'E' && a[15] == 'F' && a[16] == 'G' && a[17] == 'H');
    assert(a[18] == 'J' && a[19] == 'K' && a[20] == 'M' && a[21] == 'N' && a[22] == 'P' && a[23] == 'Q');
    assert(a[24] == 'R' && a[25] == 'S' && a[26] == 'T' && a[27] == 'V' && a[28] == 'W' && a[29] == 'X');
    assert(a[30] == 'Y' && a[31] == 'Z');
    if j > i + 1 {
        lemma_alphabet_increasing(i, j - 1);
    }
}

proof fn lemma_base32_len(v: nat, n: nat)
    ensures
        base32_text(v, n).len() == n,
    decreases n,
{
    if n > 0 {
        lemma_base32_len(v / 32, (n - 1) as nat);
    }
}

proof fn lemma_lex_push_both(a: Seq<char>, b: Seq<char>, x: char, y: char)
    requires
        a.len() == b.len(),
        lex_lt(a, b),
    ensures
        lex_lt(a.push(x), b.push(y)),
    decreases a.len(),
{
    assert(a.push(x)[0] == a[0] && b.push(y)[0] == b[0]);
    if a[0] == b[0] {
        assert(a.push(x).drop_first() =~= a.drop_first().push(x));
        assert(b.push(y).drop_first() =~= b.drop_first().push(y));
        lemma_lex_push_both(a.drop_first(), b.drop_first(), x, y);
    }
}

proof fn lemma_lex_push_last(a: Seq<char>, x: char, y: char)
    requires
        (x as int) < (y as int),
    ensures
        lex_lt(a.push(x), a.push(y)),
    decreases a.len(),
{
    if a.len() == 0 {
        assert(a.push(x)[0] == x && a.push(y)[0] == y);
    } else {
        assert(a.push(x)[0] == a[0] && a.push(y)[0] == a[0]);
        assert(a.push(x).drop_first() =~= a.drop_first().push(x));
        assert(a.push(y).drop_first() =~= a.drop_first().push(y));
        lemma_lex_push_last(a.drop_first(), x, y);
    }
}

proof fn lemma_base32_order(v1: nat, v2: nat, n: nat)
    requires
        v1 < v2 < pow32(n),
    ensures
        lex_lt(base32_text(v1, n), base32_text(v2, n)),
    decreases n,
{
    let q1 = v1 / 32;
    let q2 = v2 / 32;
    let r1 = v1 % 32;
    let r2 = v2 % 32;
    if n == 0 {
        assert(false);
    }
    let m = (n - 1) as nat;
    assert(pow32(n) == 32 * pow32(m));
    assert(q2 < pow32(m)) by (nonlinear_arith)
        requires v2 < 32 * pow32(m), q2 == v2 / 32;
    assert(q1 < q2 || (q1 == q2 && r1 < r2)) by (nonlinear_arith)
        requires v1 < v2, q1 == v1 / 32, q2 == v2 / 32, r1 == v1 % 32, r2 == v2 % 32;
    lemma_base32_len(q1, m);
    lemma_base32_len(q2, m);
    if q1 < q2 {
        lemma_base32_order(q1, q2, m);
        lemma_lex_push_both(base32_text(q1, m), base32_text(q2, m), crockford_alphabet()[r1 as int], crockford_alphabet()[r2 as int]);
    } else {
        lemma_alphabet_increasing(r1 as int, r2 as int);
        lemma_lex_push_last(base32_text(q1, m), crockford_alphabet()[r1 as int], crockford_alphabet()[r2 as int]);
    }
}

/// Identifier texts sort as their values do: a greater value has a text
/// that sorts strictly after.
pub proof fn lemma_ulid_text_order(v1: u128, v2: u128)
    requires
        v1 < v2,
    ensures
        lex_lt(ulid_text(v1), ulid_text(v2)),
        ulid_text(v1).len() == 26,
{
    reveal_with_fuel(pow32, 27);
    assert(pow32(26) == 1361129467683753853853498429727072845824nat);
    lemma_base32_order(v1 as nat, v2 as nat, 26);
    lemma_base32_len(v1 as nat, 26);
}

/// The next identifier after `last`, from a value drawn from a generator
/// (`None` where it gave none): issued exactly when a value was drawn and
/// it is greater than `last`, as the text of that value with the creation
/// time it carries.
pub fn accept_drawn(last: u128, drawn: Option<u128>) -> (r: Option<(String, u64)>)
    ensures
        (r is Some) == (drawn is Some && drawn.unwrap() > last),
        r is Some ==> {
            &&& r.unwrap().0@ == ulid_text(drawn.unwrap())
            &&& ulid_decode_of(r.unwrap().0@) == drawn
            &&& r.unwrap().1 == timestamp_of(drawn.unwrap())
            &&& id_timestamp_of(r.unwrap().0@) == Some(r.unwrap().1)
        },
{
    match drawn {
        Some(v) => {
            if v > last {
                Some((encode_ulid(v), (v >> 80u32) as u64))
            } else {
                None
            }
        },
        None => None,
    }
}

/// The creation time, in milliseconds, that an identifier value carries in its top 48 bits.
pub open spec fn timestamp_of(v: u128) -> u64 {
    (v >> 80u128) as u64
}

/// The creation time carried by an identifier, or `None` where the text is no identifier.
pub open spec fn id_timestamp_of(s: Seq<char>) -> Option<u64> {
    match ulid_decode_of(s) {
        Some(v) => Some(timestamp_of(v)),
        None => None,
    }
}

/// Reads the creation time out of an identifier.
pub fn id_timestamp(s: &str) -> (r: Option<u64>)
    ensures
        r == id_timestamp_of(s@),
{
    match decode_ulid(s) {
        Some(v) => Some((v >> 80u32) as u64),
        None => None,
    }
}

/// Mints a fresh identifier and returns it with the creation time it carries.
pub fn new_id() -> (r: (String, u64))
    ensures
        r.0@.len() == 26,
        id_timestamp_of(r.0@) == Some(r.1),
{
    let v = fresh_ulid();
    let s = encode_ulid(v);
    proof {
        lemma_base32_len(v as nat, 26);
    }
    (s, (v >> 80u32) as u64)
}

} // verus!
