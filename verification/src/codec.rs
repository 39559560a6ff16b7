//! Trace-context codec: decodes the externally supplied trace header of the
//! form `Root=<trace-id>;Parent=<span-id>;Sampled=<0|1>[;...]` into a
//! portable [`SpanContext`], and converts the identifiers between their
//! binary and hexadecimal representations.

use vstd::prelude::*;

verus! {

/// Why a trace header failed to decode.
#[derive(Clone, Copy, Debug, PartialEq, Eq, Structural)]
pub enum ParseError {
    /// A required field (`Root=` or `Parent=`) is absent.
    MissingField,
    /// The `Root=` value has the wrong shape, length or non-hex characters.
    InvalidTraceId,
    /// The `Parent=` value has the wrong length or non-hex characters.
    InvalidSpanId,
    /// The `Sampled=` field is absent or its value is neither `0` nor `1`.
    InvalidSampling,
}

/// The portable identity of a span: everything needed to parent new spans
/// onto an existing trace. A pure value, copyable, compared by fields.
#[derive(Clone, Copy, Debug, PartialEq, Eq, Structural)]
pub struct SpanContext {
    /// 128-bit trace identifier, shared by every span of one trace.
    pub trace_id: u128,
    /// 64-bit span identifier, unique within the trace.
    pub span_id: u64,
    /// Whether the upstream system asked to sample this trace.
    pub sampled: bool,
}

/// ASCII code of `;`, the field separator of the header format.
pub const SEMICOLON: u8 = 59;

/// ASCII code of `-`, the separator inside the `Root=` value.
pub const DASH: u8 = 45;

pub open spec fn is_hex_digit(b: u8) -> bool {
    (48 <= b && b <= 57) || (97 <= b && b <= 102) || (65 <= b && b <= 70)
}

pub open spec fn hex_digit_value(b: u8) -> nat {
    if 48 <= b && b <= 57 {
        (b - 48) as nat
    } else if 97 <= b && b <= 102 {
        (b - 87) as nat
    } else if 65 <= b && b <= 70 {
        (b - 55) as nat
    } else {
        0
    }
}

pub open spec fn all_hex(s: Seq<u8>) -> bool {
    forall|i: int| 0 <= i < s.len() ==> is_hex_digit(#[trigger] s[i])
}

/// The number denoted by a big-endian string of hex digits.
pub open spec fn hex_value(s: Seq<u8>) -> nat
    decreases s.len(),
{
    if s.len() == 0 {
        0
    } else {
        hex_value(s.drop_last()) * 16 + hex_digit_value(s.last())
    }
}

pub open spec fn pow16(n: nat) -> nat
    decreases n,
{
    if n == 0 {
        1
    } else {
        16 * pow16((n - 1) as nat)
    }
}

pub proof fn lemma_hex_value_bound(s: Seq<u8>)
    ensures
        hex_value(s) < pow16(s.len()),
    decreases s.len(),
{
    if s.len() == 0 {
    } else {
        lemma_hex_value_bound(s.drop_last());
        assert(hex_digit_value(s.last()) < 16);
    }
}

pub proof fn lemma_pow16_increases(a: nat, b: nat)
    requires
        a <= b,
    ensures
        pow16(a) <= pow16(b),
    decreases b,
{
    if a < b {
        lemma_pow16_increases(a, (b - 1) as nat);
    }
}

fn hex_digit_val(b: u8) -> (r: u8)
    requires
        is_hex_digit(b),
    ensures
        r as nat == hex_digit_value(b),
        r < 16,
{
    if 48 <= b && b <= 57 {
        b - 48
    } else if 97 <= b && b <= 102 {
        b - 87
    } else {
        b - 55
    }
}

fn check_all_hex(s: &[u8]) -> (r: bool)
    ensures
        r == all_hex(s@),
{
    let mut i: usize = 0;
    while i < s.len()
        invariant
            0 <= i <= s@.len(),
            forall|j: int| 0 <= j < i ==> is_hex_digit(#[trigger] s@[j]),
        decreases s@.len() - i,
    {
        let b = s[i];
        if !((48 <= b && b <= 57) || (97 <= b && b <= 102) || (65 <= b && b <= 70)) {
            assert(!is_hex_digit(s@[i as int]));
            return false;
        }
        i = i + 1;
    }
    true
}

/// Reads at most 32 hex digits as a big-endian 128-bit number.
fn parse_hex_u128(s: &[u8]) -> (r: u128)
    requires
        all_hex(s@),
        s@.len() <= 32,
    ensures
        r as nat == hex_value(s@),
{
    let mut acc: u128 = 0;
    let mut i: usize = 0;
    while i < s.len()
        invariant
            0 <= i <= s@.len(),
            s@.len() <= 32,
            all_hex(s@),
            acc as nat == hex_value(s@.take(i as int)),
            (acc as nat) < pow16(i as nat),
        decreases s@.len() - i,
    {
        let d = hex_digit_val(s[i]);
        proof {
            assert(s@.take(i + 1).drop_last() =~= s@.take(i as int));
            assert(s@.take(i + 1).last() == s@[i as int]);
            lemma_pow16_increases((i + 1) as nat, 32);
            assert(pow16(32) == 0x100000000000000000000000000000000) by {
                reveal_with_fuel(pow16, 33);
            }
        }
        acc = acc * 16 + (d as u128);
        i = i + 1;
    }
    proof {
        assert(s@.take(s@.len() as int) =~= s@);
    }
    acc
}

/// The header split at every `;` into fields; an empty header is one empty
/// field, and a separator at either end yields an empty field there.
pub open spec fn split_fields(s: Seq<u8>) -> Seq<Seq<u8>>
    decreases s.len(),
{
    if s.len() == 0 {
        seq![Seq::<u8>::empty()]
    } else {
        let rest = split_fields(s.drop_first());
        if s[0] == SEMICOLON {
            seq![Seq::<u8>::empty()] + rest
        } else {
            seq![seq![s[0]] + rest[0]] + rest.drop_first()
        }
    }
}

/// The value of the first field that starts with `key` (the field name
/// together with `=`), with that prefix removed.
pub open spec fn field_value(fields: Seq<Seq<u8>>, key: Seq<u8>) -> Option<Seq<u8>>
    decreases fields.len(),
{
    if fields.len() == 0 {
        None
    } else if key.is_prefix_of(fields[0]) {
        Some(fields[0].skip(key.len() as int))
    } else {
        field_value(fields.drop_first(), key)
    }
}

/// The bytes of `Root=`.
pub open spec fn root_key() -> Seq<u8> {
    seq![82u8, 111u8, 111u8, 116u8, 61u8]
}

/// The bytes of `Parent=`.
pub open spec fn parent_key() -> Seq<u8> {
    seq![80u8, 97u8, 114u8, 101u8, 110u8, 116u8, 61u8]
}

/// The bytes of `Sampled=`.
pub open spec fn sampled_key() -> Seq<u8> {
    seq![83u8, 97u8, 109u8, 112u8, 108u8, 101u8, 100u8, 61u8]
}

/// Shape of a well-formed `Root=` value: a version byte `1`, a dash, eight
/// hex digits of creation time, a dash, and twenty-four random hex digits.
pub open spec fn valid_root_value(v: Seq<u8>) -> bool {
    v.len() == 35 && v[0] == 49 && v[1] == DASH && v[10] == DASH && all_hex(v.subrange(2, 10))
        && all_hex(v.subrange(11, 35))
}

/// The canonical 32-digit trace id: the time prefix concatenated with the
/// random suffix, bit values unaltered.
pub open spec fn root_trace_hex(v: Seq<u8>) -> Seq<u8> {
    v.subrange(2, 10) + v.subrange(11, 35)
}

/// Shape of a well-formed `Parent=` value: sixteen hex digits.
pub open spec fn valid_parent_value(v: Seq<u8>) -> bool {
    v.len() == 16 && all_hex(v)
}

/// What `decode` returns, field by field, for every header. Unknown extra
/// fields are ignored; `Root` and `Parent` are required; `Sampled` must be
/// present and be `0` or `1`.
pub open spec fn spec_decode(s: Seq<u8>) -> Result<SpanContext, ParseError> {
    let fields = split_fields(s);
    match field_value(fields, root_key()) {
        Option::None => Result::Err(ParseError::MissingField),
        Option::Some(root) => if !valid_root_value(root) {
            Result::Err(ParseError::InvalidTraceId)
        } else {
            match field_value(fields, parent_key()) {
                Option::None => Result::Err(ParseError::MissingField),
                Option::Some(parent) => if !valid_parent_value(parent) {
                    Result::Err(ParseError::InvalidSpanId)
                } else {
                    match field_value(fields, sampled_key()) {
                        Option::None => Result::Err(ParseError::InvalidSampling),
                        Option::Some(flag) => if flag == seq![48u8] {
                            Result::Ok(SpanContext {
                                trace_id: hex_value(root_trace_hex(root)) as u128,
                                span_id: hex_value(parent) as u64,
                                sampled: false,
                            })
                        } else if flag == seq![49u8] {
                            Result::Ok(SpanContext {
                                trace_id: hex_value(root_trace_hex(root)) as u128,
                                span_id: hex_value(parent) as u64,
                                sampled: true,
                            })
                        } else {
                            Result::Err(ParseError::InvalidSampling)
                        },
                    }
                },
            }
        },
    }
}

/// The views of a sequence of byte vectors.
pub open spec fn views_of(fields: Seq<Vec<u8>>) -> Seq<Seq<u8>> {
    fields.map_values(|f: Vec<u8>| f@)
}

fn split_fields_exec(s: &[u8]) -> (r: Vec<Vec<u8>>)
    ensures
        views_of(r@) == split_fields(s@),
        r@.len() >= 1,
    decreases s@.len(),
{
    if s.len() == 0 {
        let mut r: Vec<Vec<u8>> = Vec::new();
        r.push(Vec::new());
        proof {
            assert(views_of(r@) =~= split_fields(s@));
        }
        r
    } else {
        let tail = vstd::slice::slice_subrange(s, 1, s.len());
        proof {
            assert(tail@ =~= s@.drop_first());
        }
        let mut rest = split_fields_exec(tail);
        if s[0] == SEMICOLON {
            rest.insert(0, Vec::new());
            proof {
                assert(views_of(rest@) =~= seq![Seq::<u8>::empty()] + split_fields(s@.drop_first()));
            }
            rest
        } else {
            let mut head = rest.remove(0);
            head.insert(0, s[0]);
            rest.insert(0, head);
            proof {
                let spec_rest = split_fields(s@.drop_first());
                assert(head@ =~= seq![s@[0]] + spec_rest[0]);
                assert(views_of(rest@) =~= seq![seq![s@[0]] + spec_rest[0]] + spec_rest.drop_first());
            }
            rest
        }
    }
}

fn starts_with(s: &[u8], key: &[u8]) -> (r: bool)
    ensures
        r == key@.is_prefix_of(s@),
{
    if s.len() < key.len() {
        return false;
    }
    let mut i: usize = 0;
    while i < key.len()
        invariant
            0 <= i <= key@.len(),
            key@.len() <= s@.len(),
            forall|j: int| 0 <= j < i ==> s@[j] == key@[j],
        decreases key@.len() - i,
    {
        if s[i] != key[i] {
            proof {
                assert(!key@.is_prefix_of(s@)) by {
                    if key@.is_prefix_of(s@) {
                        assert(key@[i as int] == s@.subrange(0, key@.len() as int)[i as int]);
                    }
                }
            }
            return false;
        }
        i = i + 1;
    }
    proof {
        assert(key@ =~= s@.subrange(0, key@.len() as int));
    }
    true
}

fn lookup_field(fields: &Vec<Vec<u8>>, key: &[u8]) -> (r: Option<Vec<u8>>)
    ensures
        match r {
            Option::Some(v) => field_value(views_of(fields@), key@) == Option::Some(v@),
            Option::None => field_value(views_of(fields@), key@) is None,
        },
{
    let mut i: usize = 0;
    proof {
        assert(views_of(fields@).skip(0) =~= views_of(fields@));
    }
    while i < fields.len()
        invariant
            0 <= i <= fields@.len(),
            field_value(views_of(fields@), key@) == field_value(
                views_of(fields@).skip(i as int),
                key@,
            ),
        decreases fields@.len() - i,
    {
        let f = &fields[i];
        let matched = starts_with(f.as_slice(), key);
        proof {
            assert(views_of(fields@).skip(i as int)[0] == f@);
        }
        if matched {
            let v = vstd::slice::slice_to_vec(vstd::slice::slice_subrange(
                f.as_slice(),
                key.len(),
                f.len(),
            ));
            proof {
                assert(v@ =~= f@.skip(key@.len() as int));
            }
            return Some(v);
        }
        proof {
            assert(views_of(fields@).skip(i as int).drop_first() =~= views_of(fields@).skip(
                i + 1,
            ));
        }
        i = i + 1;
    }
    None
}

fn root_key_bytes() -> (r: Vec<u8>)
    ensures
        r@ == root_key(),
{
    let mut r: Vec<u8> = Vec::new();
    r.push(82);
    r.push(111);
    r.push(111);
    r.push(116);
    r.push(61);
    proof {
        assert(r@ =~= root_key());
    }
    r
}

fn parent_key_bytes() -> (r: Vec<u8>)
    ensures
        r@ == parent_key(),
{
    let mut r: Vec<u8> = Vec::new();
    r.push(80);
    r.push(97);
    r.push(114);
    r.push(101);
    r.push(110);
    r.push(116);
    r.push(61);
    proof {
        assert(r@ =~= parent_key());
    }
    r
}

fn sampled_key_bytes() -> (r: Vec<u8>)
    ensures
        r@ == sampled_key(),
{
    let mut r: Vec<u8> = Vec::new();
    r.push(83);
    r.push(97);
    r.push(109);
    r.push(112);
    r.push(108);
    r.push(101);
    r.push(100);
    r.push(61);
    proof {
        assert(r@ =~= sampled_key());
    }
    r
}

fn valid_root_exec(v: &Vec<u8>) -> (r: bool)
    ensures
        r == valid_root_value(v@),
{
    if v.len() != 35 {
        return false;
    }
    if v[0] != 49 {
        return false;
    }
    if v[1] != DASH {
        return false;
    }
    if v[10] != DASH {
        return false;
    }
    let time_part = check_all_hex(vstd::slice::slice_subrange(v.as_slice(), 2, 10));
    let random_part = check_all_hex(vstd::slice::slice_subrange(v.as_slice(), 11, 35));
    time_part && random_part
}

/// Decodes a trace header of the external format into a [`SpanContext`].
///
/// Pure and deterministic: the result is a function of the header bytes
/// alone, stated field by field by [`spec_decode`]. The embedded creation
/// time and random suffix of the `Root=` value are concatenated into the
/// canonical 128-bit trace id without altering bit values.
pub fn decode(header: &[u8]) -> (r: Result<SpanContext, ParseError>)
    ensures
        r == spec_decode(header@),
{
    let fields = split_fields_exec(header);
    let root_key_v = root_key_bytes();
    let parent_key_v = parent_key_bytes();
    let sampled_key_v = sampled_key_bytes();
    let root = match lookup_field(&fields, root_key_v.as_slice()) {
        Option::None => {
            return Err(ParseError::MissingField);
        },
        Option::Some(v) => v,
    };
    if !valid_root_exec(&root) {
        return Err(ParseError::InvalidTraceId);
    }
    let parent = match lookup_field(&fields, parent_key_v.as_slice()) {
        Option::None => {
            return Err(ParseError::MissingField);
        },
        Option::Some(v) => v,
    };
    if !(parent.len() == 16 && check_all_hex(parent.as_slice())) {
        return Err(ParseError::InvalidSpanId);
    }
    let flag = match lookup_field(&fields, sampled_key_v.as_slice()) {
        Option::None => {
            return Err(ParseError::InvalidSampling);
        },
        Option::Some(v) => v,
    };
    let sampled = if flag.len() == 1 && flag[0] == 48 {
        proof {
            assert(flag@ =~= seq![48u8]);
        }
        false
    } else if flag.len() == 1 && flag[0] == 49 {
        proof {
            assert(flag@ =~= seq![49u8]);
            assert(flag@ != seq![48u8]);
        }
        true
    } else {
        proof {
            assert(flag@ != seq![48u8]);
            assert(flag@ != seq![49u8]);
        }
        return Err(ParseError::InvalidSampling);
    };
    let mut trace_hex = vstd::slice::slice_to_vec(vstd::slice::slice_subrange(
        root.as_slice(),
        2,
        10,
    ));
    let suffix = vstd::slice::slice_to_vec(vstd::slice::slice_subrange(root.as_slice(), 11, 35));
    let mut i: usize = 0;
    while i < suffix.len()
        invariant
            0 <= i <= suffix@.len(),
            trace_hex@ == root.view().subrange(2, 10) + suffix@.take(i as int),
            suffix@ == root.view().subrange(11, 35),
        decreases suffix@.len() - i,
    {
        trace_hex.push(suffix[i]);
        proof {
            assert(suffix@.take(i + 1) =~= suffix@.take(i as int).push(suffix@[i as int]));
        }
        i = i + 1;
    }
    proof {
        assert(suffix@.take(suffix@.len() as int) =~= suffix@);
        assert(trace_hex@ == root_trace_hex(root@));
        assert(all_hex(trace_hex@)) by {
            assert(forall|j: int| 0 <= j < 8 ==> trace_hex@[j] == root@.subrange(2, 10)[j]);
            assert(forall|j: int| 8 <= j < 32 ==> trace_hex@[j] == root@.subrange(11, 35)[j - 8]);
        }
    }
    let trace_id = parse_hex_u128(trace_hex.as_slice());
    let span_id = parse_hex_u64(parent.as_slice());
    proof {
        lemma_hex_value_bound(trace_hex@);
        lemma_pow16_increases(trace_hex@.len(), 32);
        assert(pow16(32) == 0x100000000000000000000000000000000) by {
            reveal_with_fuel(pow16, 33);
        }
        lemma_hex_value_bound(parent@);
        lemma_pow16_increases(parent@.len(), 16);
        assert(pow16(16) == 0x10000000000000000) by {
            reveal_with_fuel(pow16, 17);
        }
    }
    Ok(SpanContext { trace_id, span_id, sampled })
}

/// Reads at most 16 hex digits as a big-endian 64-bit number.
fn parse_hex_u64(s: &[u8]) -> (r: u64)
    requires
        all_hex(s@),
        s@.len() <= 16,
    ensures
        r as nat == hex_value(s@),
{
    let mut acc: u64 = 0;
    let mut i: usize = 0;
    while i < s.len()
        invariant
            0 <= i <= s@.len(),
            s@.len() <= 16,
            all_hex(s@),
            acc as nat == hex_value(s@.take(i as int)),
            (acc as nat) < pow16(i as nat),
        decreases s@.len() - i,
    {
        let d = hex_digit_val(s[i]);
        proof {
            assert(s@.take(i + 1).drop_last() =~= s@.take(i as int));
            assert(s@.take(i + 1).last() == s@[i as int]);
            lemma_pow16_increases((i + 1) as nat, 16);
            assert(pow16(16) == 0x10000000000000000) by {
                reveal_with_fuel(pow16, 17);
            }
        }
        acc = acc * 16 + (d as u64);
        i = i + 1;
    }
    proof {
        assert(s@.take(s@.len() as int) =~= s@);
    }
    acc
}

/// The lower-case hex digit for a value below sixteen.
pub open spec fn hex_digit_of(v: nat) -> u8 {
    if v < 10 {
        (48 + v) as u8
    } else {
        (87 + v) as u8
    }
}

/// `v` written as exactly `digits` big-endian lower-case hex digits.
pub open spec fn hex_encode(v: nat, digits: nat) -> Seq<u8>
    decreases digits,
{
    if digits == 0 {
        Seq::empty()
    } else {
        hex_encode(v / 16, (digits - 1) as nat).push(hex_digit_of(v % 16))
    }
}

fn hex_bytes(v: u128, digits: usize) -> (r: Vec<u8>)
    ensures
        r@ == hex_encode(v as nat, digits as nat),
    decreases digits,
{
    if digits == 0 {
        Vec::new()
    } else {
        let mut r = hex_bytes(v / 16, digits - 1);
        let m = (v % 16) as u8;
        let d = if m < 10 {
            48 + m
        } else {
            87 + m
        };
        proof {
            assert(d == hex_digit_of((v as nat) % 16));
        }
        r.push(d);
        r
    }
}

/// The 32-digit lower-case hex encoding of a trace id, as it appears in an
/// exported span record.
pub fn trace_id_hex(trace_id: u128) -> (r: Vec<u8>)
    ensures
        r@ == hex_encode(trace_id as nat, 32),
{
    hex_bytes(trace_id, 32)
}

/// The 16-digit lower-case hex encoding of a span id, as it appears in an
/// exported span record.
pub fn span_id_hex(span_id: u64) -> (r: Vec<u8>)
    ensures
        r@ == hex_encode(span_id as nat, 16),
{
    hex_bytes(span_id as u128, 16)
}

/// Law: an identifier round-trips exactly between its binary and hex
/// representations — encoding a value that fits in `digits` hex digits and
/// reading the digits back yields the same value, with no bit altered.
pub proof fn lemma_hex_round_trip(v: nat, digits: nat)
    requires
        v < pow16(digits),
    ensures
        hex_encode(v, digits).len() == digits,
        all_hex(hex_encode(v, digits)),
        hex_value(hex_encode(v, digits)) == v,
    decreases digits,
{
    if digits == 0 {
    } else {
        assert(v / 16 < pow16((digits - 1) as nat)) by (nonlinear_arith)
            requires
                v < 16 * pow16((digits - 1) as nat),
        ;
        lemma_hex_round_trip(v / 16, (digits - 1) as nat);
        let e = hex_encode(v / 16, (digits - 1) as nat);
        let enc = hex_encode(v, digits);
        assert(enc.drop_last() =~= e);
        assert(is_hex_digit(hex_digit_of(v % 16)));
        assert(hex_digit_value(hex_digit_of(v % 16)) == v % 16);
        assert(forall|i: int| 0 <= i < enc.len() ==> is_hex_digit(#[trigger] enc[i])) by {
            assert(forall|i: int| 0 <= i < e.len() ==> enc[i] == #[trigger] e[i]);
        }
    }
}

/// Law: decoding is deterministic — two decodes of the same header bytes
/// yield field-equal span contexts, or the same error, with no hidden state.
pub proof fn lemma_decode_deterministic(
    header: Seq<u8>,
    r1: Result<SpanContext, ParseError>,
    r2: Result<SpanContext, ParseError>,
)
    requires
        r1 == spec_decode(header),
        r2 == spec_decode(header),
    ensures
        r1 == r2,
{
}

} // verus!
