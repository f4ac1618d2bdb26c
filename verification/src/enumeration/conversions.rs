//! Conversions at the storage handoff: Windows timestamps and file ids into
//! the agreed numeric forms, exact decimal strings for identities, and the
//! checks a staged observation must pass (locator-key grammar, signed 64-bit
//! ranges, canonical identity decimals).
use vstd::prelude::*;

use super::{IdentityQualification, QualifiedIdentity};
use crate::text::{chars_of, push_char};

verus! {

/// Number of 100-nanosecond intervals between the Windows and Unix epochs.
pub const WINDOWS_EPOCH_OFFSET_100NS: i128 = 116_444_736_000_000_000;

/// The longest locator key storage accepts, in bytes.
pub const MAX_OBSERVATION_KEY_BYTES: usize = 32_768;

/// Why a timestamp cannot be stored.
#[derive(Clone, Copy, Debug, PartialEq, Eq, Structural)]
pub enum TimestampError {
    /// The value does not fit the durable signed 64-bit nanosecond range.
    OutOfRange,
    /// The time lies before the Unix epoch where only later times are valid.
    BeforeEpoch,
}

/// Unix nanoseconds of a signed Windows FILETIME tick count.
pub open spec fn filetime_unix_ns(ticks: i64) -> int {
    (ticks - WINDOWS_EPOCH_OFFSET_100NS) * 100
}

pub open spec fn fits_i64(v: int) -> bool {
    i64::MIN <= v <= i64::MAX
}

/// Convert a signed Windows FILETIME tick count to signed Unix nanoseconds,
/// at the source precision.
pub fn windows_filetime_100ns_to_unix_ns(ticks: i64) -> (r: i128)
    ensures
        r == filetime_unix_ns(ticks),
{
    (ticks as i128 - WINDOWS_EPOCH_OFFSET_100NS) * 100
}

/// Narrow signed Unix nanoseconds to the durable `i64` range; values outside
/// it are rejected, never saturated.
pub fn unix_ns_to_i64_checked(ns: i128) -> (r: Result<i64, TimestampError>)
    ensures
        r == (if fits_i64(ns as int) { Ok::<i64, TimestampError>(ns as i64) } else { Err(TimestampError::OutOfRange) }),
{
    if ns < i64::MIN as i128 || ns > i64::MAX as i128 {
        Err(TimestampError::OutOfRange)
    } else {
        Ok(ns as i64)
    }
}

/// Convert a FILETIME tick count to Unix nanoseconds in the durable `i64`
/// range.
pub fn windows_filetime_100ns_to_unix_ns_checked(ticks: i64) -> (r: Result<i64, TimestampError>)
    ensures
        r == (if fits_i64(filetime_unix_ns(ticks)) {
            Ok::<i64, TimestampError>(filetime_unix_ns(ticks) as i64)
        } else {
            Err(TimestampError::OutOfRange)
        }),
{
    unix_ns_to_i64_checked(windows_filetime_100ns_to_unix_ns(ticks))
}

/// `256^n`.
pub open spec fn pow256(n: nat) -> nat
    decreases n,
{
    if n == 0 { 1 } else { 256 * pow256((n - 1) as nat) }
}

/// The little-endian value of `b`.
pub open spec fn le_value(b: Seq<u8>) -> nat
    decreases b.len(),
{
    if b.len() == 0 { 0 } else { b[0] as nat + 256 * le_value(b.drop_first()) }
}

proof fn lemma_le_value_bound(b: Seq<u8>)
    ensures
        le_value(b) < pow256(b.len()),
    decreases b.len(),
{
    if b.len() > 0 {
        lemma_le_value_bound(b.drop_first());
    }
}

proof fn lemma_pow256_monotonic(a: nat, b: nat)
    requires
        a <= b,
    ensures
        pow256(a) <= pow256(b),
    decreases b,
{
    if a < b {
        lemma_pow256_monotonic(a, (b - 1) as nat);
    }
}

proof fn lemma_pow256_16()
    ensures
        pow256(16) == 0x1_0000_0000_0000_0000_0000_0000_0000_0000,
{
    reveal_with_fuel(pow256, 17);
}

/// Preserve the opaque Windows 128-bit file-id bytes as the agreed `u128`,
/// read little-endian.
pub fn windows_file_id_to_u128(bytes: [u8; 16]) -> (r: u128)
    ensures
        r == le_value(bytes@),
{
    let ghost b = bytes@;
    let mut acc: u128 = 0;
    let mut i: usize = 16;
    proof {
        assert(b.subrange(16, 16) =~= Seq::<u8>::empty());
        lemma_pow256_16();
    }
    while i > 0
        invariant
            b == bytes@,
            b.len() == 16,
            i <= 16,
            acc == le_value(b.subrange(i as int, 16)),
            pow256(16) == 0x1_0000_0000_0000_0000_0000_0000_0000_0000,
        decreases i,
    {
        let ghost tail = b.subrange(i as int, 16);
        proof {
            lemma_le_value_bound(tail);
            lemma_pow256_monotonic((16 - i + 1) as nat, 16);
            assert(pow256((16 - i + 1) as nat) == 256 * pow256((16 - i) as nat));
        }
        i = i - 1;
        acc = acc * 256 + bytes[i] as u128;
        proof {
            let s = b.subrange(i as int, 16);
            assert(s.drop_first() =~= tail);
        }
    }
    proof {
        assert(b.subrange(0, 16) =~= b);
    }
    acc
}

/// The 16 little-endian bytes of `value`; the inverse of
/// `windows_file_id_to_u128`.
pub fn u128_to_windows_file_id_bytes(value: u128) -> (r: [u8; 16])
    ensures
        le_value(r@) == value,
{
    let mut out = [0u8; 16];
    let mut rest = value;
    let mut i: usize = 0;
    proof {
        assert(out@.subrange(0, 0) =~= Seq::<u8>::empty());
        assert(le_value(Seq::<u8>::empty()) == 0);
        assert(pow256(0) == 1);
    }
    while i < 16
        invariant
            i <= 16,
            out@.len() == 16,
            value == le_value(out@.subrange(0, i as int)) + pow256(i as nat) * rest,
        decreases 16 - i,
    {
        let ghost before = out@.subrange(0, i as int);
        let byte = (rest % 256) as u8;
        out[i] = byte;
        proof {
            lemma_le_append(before, byte);
            assert(out@.subrange(0, i + 1) =~= before.push(byte));
            assert(rest == (rest % 256) + 256 * (rest / 256));
            assert(pow256((i + 1) as nat) == 256 * pow256(i as nat));
            assert(pow256(i as nat) * rest == pow256(i as nat) * (rest % 256) + pow256(i as nat) * 256 * (rest / 256)) by (nonlinear_arith);
            assert(pow256((i + 1) as nat) * (rest / 256) == pow256(i as nat) * 256 * (rest / 256)) by (nonlinear_arith)
                requires pow256((i + 1) as nat) == 256 * pow256(i as nat);
        }
        rest = rest / 256;
        i = i + 1;
    }
    proof {
        lemma_le_value_bound(out@);
        lemma_pow256_16();
        assert(out@.subrange(0, 16) =~= out@);
        if rest > 0 {
            assert(pow256(16) * rest >= pow256(16)) by (nonlinear_arith)
                requires rest > 0;
        }
    }
    out
}

proof fn lemma_le_append(b: Seq<u8>, x: u8)
    ensures
        le_value(b.push(x)) == le_value(b) + pow256(b.len()) * x,
    decreases b.len(),
{
    if b.len() == 0 {
        assert(b.push(x).drop_first() =~= Seq::<u8>::empty());
        assert(le_value(Seq::<u8>::empty()) == 0);
        assert(pow256(0) == 1);
    } else {
        assert(b.push(x).drop_first() =~= b.drop_first().push(x));
        assert(b.push(x)[0] == b[0]);
        lemma_le_append(b.drop_first(), x);
        assert(pow256(b.len()) == 256 * pow256(b.drop_first().len()));
        assert(256 * (pow256(b.drop_first().len()) * x) == pow256(b.len()) * x) by (nonlinear_arith)
            requires pow256(b.len()) == 256 * pow256(b.drop_first().len());
    }
}

/// A 16-byte file id is determined by its `u128` value: converting bytes to
/// the value and back gives the same bytes, so the DTO preserves the opaque
/// bytes exactly.
pub proof fn law_file_id_bytes_round_trip(a: Seq<u8>, b: Seq<u8>)
    requires
        a.len() == b.len(),
        le_value(a) == le_value(b),
    ensures
        a == b,
    decreases a.len(),
{
    if a.len() > 0 {
        let ra = le_value(a.drop_first());
        let rb = le_value(b.drop_first());
        assert(a[0] as int + 256 * ra == b[0] as int + 256 * rb);
        assert(a[0] == b[0] && ra == rb) by (nonlinear_arith)
            requires
                a[0] as int + 256 * ra == b[0] as int + 256 * rb,
                0 <= a[0] < 256,
                0 <= b[0] < 256,
                ra >= 0,
                rb >= 0;
        law_file_id_bytes_round_trip(a.drop_first(), b.drop_first());
        assert(a =~= seq![a[0]] + a.drop_first());
        assert(b =~= seq![b[0]] + b.drop_first());
    } else {
        assert(a =~= b);
    }
}

/// The decimal digit character of `d` (below ten).
pub open spec fn digit_char(d: nat) -> char {
    if d == 0 {
        '0'
    } else if d == 1 {
        '1'
    } else if d == 2 {
        '2'
    } else if d == 3 {
        '3'
    } else if d == 4 {
        '4'
    } else if d == 5 {
        '5'
    } else if d == 6 {
        '6'
    } else if d == 7 {
        '7'
    } else if d == 8 {
        '8'
    } else {
        '9'
    }
}

/// The canonical decimal spelling of `n`: no sign and no leading zero.
pub open spec fn decimal_chars(n: nat) -> Seq<char>
    decreases n,
{
    if n < 10 {
        seq![digit_char(n)]
    } else {
        decimal_chars(n / 10).push(digit_char(n % 10))
    }
}

pub open spec fn is_decimal_digit(c: char) -> bool {
    '0' <= c && c <= '9'
}

/// A canonical decimal spelling: digits only, at least one, and no leading
/// zero unless the number is zero itself.
pub open spec fn is_canonical_decimal(s: Seq<char>) -> bool {
    &&& s.len() > 0
    &&& forall|i: int| 0 <= i < s.len() ==> is_decimal_digit(#[trigger] s[i])
    &&& (s[0] == '0' ==> s.len() == 1)
}

/// The number a digit string spells.
pub open spec fn decimal_value(s: Seq<char>) -> nat
    decreases s.len(),
{
    if s.len() == 0 {
        0
    } else {
        decimal_value(s.drop_last()) * 10 + ((s.last() as u32) - ('0' as u32)) as nat
    }
}

fn digit_of(d: u128) -> (c: char)
    requires
        d < 10,
    ensures
        c == digit_char(d as nat),
{
    let c = if d == 0 {
        '0'
    } else if d == 1 {
        '1'
    } else if d == 2 {
        '2'
    } else if d == 3 {
        '3'
    } else if d == 4 {
        '4'
    } else if d == 5 {
        '5'
    } else if d == 6 {
        '6'
    } else if d == 7 {
        '7'
    } else if d == 8 {
        '8'
    } else {
        '9'
    };
    c
}

/// Appends the canonical decimal spelling of `n` to `out`.
fn push_decimal(out: &mut String, n: u128)
    ensures
        final(out)@ == old(out)@ + decimal_chars(n as nat),
    decreases n,
{
    if n >= 10 {
        push_decimal(out, n / 10);
    }
    push_char(out, digit_of(n % 10));
    proof {
        if n >= 10 {
            assert(old(out)@ + decimal_chars(n as nat) =~= old(out)@ + decimal_chars((n / 10) as nat) + seq![digit_char((n % 10) as nat)]);
        } else {
            assert(old(out)@ + decimal_chars(n as nat) =~= old(out)@.push(digit_char(n as nat)));
        }
    }
}

/// The canonical decimal string of `n`.
pub fn decimal_string(n: u128) -> (s: String)
    ensures
        s@ == decimal_chars(n as nat),
{
    let mut s = String::new();
    push_decimal(&mut s, n);
    assert(s@ =~= decimal_chars(n as nat));
    s
}

proof fn lemma_digit_value(d: nat)
    requires
        d < 10,
    ensures
        (((digit_char(d) as u32) - ('0' as u32)) as nat) == d,
        is_decimal_digit(digit_char(d)),
        digit_char(d) == '0' <==> d == 0,
{
}

proof fn lemma_decimal_chars_canonical(n: nat)
    ensures
        is_canonical_decimal(decimal_chars(n)),
        decimal_value(decimal_chars(n)) == n,
        decimal_chars(n).len() >= 1,
        decimal_chars(n)[0] == '0' ==> n == 0,
    decreases n,
{
    let s = decimal_chars(n);
    lemma_digit_value(n % 10);
    if n >= 10 {
        lemma_decimal_chars_canonical(n / 10);
        assert(s.drop_last() =~= decimal_chars(n / 10));
        assert(s[0] == decimal_chars(n / 10)[0]);
        assert(s.last() == digit_char(n % 10));
        assert(n == (n / 10) * 10 + n % 10);
        assert(forall|i: int| 0 <= i < s.len() - 1 ==> s[i] == decimal_chars(n / 10)[i]);
        assert(decimal_value(s) == decimal_value(s.drop_last()) * 10 + (((s.last() as u32) - ('0' as u32)) as nat));
        assert(decimal_value(s) == (n / 10) * 10 + n % 10);
    } else {
        assert(s.drop_last() =~= Seq::<char>::empty());
        assert(s.last() == digit_char(n));
        assert(decimal_value(s) == decimal_value(s.drop_last()) * 10 + (((s.last() as u32) - ('0' as u32)) as nat));
        assert(decimal_value(s.drop_last()) == 0);
    }
}

/// Spelling a number in canonical decimal and reading it back gives the
/// number, and the spelling is canonical: identities survive the string
/// handoff exactly.
pub proof fn law_decimal_round_trip(n: nat)
    ensures
        is_canonical_decimal(decimal_chars(n)),
        decimal_value(decimal_chars(n)) == n,
{
    lemma_decimal_chars_canonical(n);
}

proof fn lemma_decimal_value_prefix(s: Seq<char>, k: int)
    requires
        0 <= k <= s.len(),
        forall|i: int| 0 <= i < s.len() ==> is_decimal_digit(#[trigger] s[i]),
    ensures
        decimal_value(s.subrange(0, k)) <= decimal_value(s),
    decreases s.len() - k,
{
    if k < s.len() {
        lemma_decimal_value_prefix(s, k + 1);
        let t = s.subrange(0, k + 1);
        assert(t.drop_last() =~= s.subrange(0, k));
    } else {
        assert(s.subrange(0, k) =~= s);
    }
}

/// Reads a canonical decimal at most `max`; `None` when `s` is not a
/// canonical decimal or its value exceeds `max`.
pub fn parse_canonical_decimal(s: &str, max: u128) -> (r: Option<u128>)
    ensures
        r == (if is_canonical_decimal(s@) && decimal_value(s@) <= max {
            Some(decimal_value(s@) as u128)
        } else {
            None::<u128>
        }),
{
    let chars = chars_of(s);
    let n = chars.len();
    if n == 0 {
        return None;
    }
    if chars[0] == '0' && n > 1 {
        return None;
    }
    let mut i: usize = 0;
    while i < n
        invariant
            n == chars@.len(),
            chars@ == s@,
            i <= n,
            forall|k: int| 0 <= k < i ==> is_decimal_digit(#[trigger] chars@[k]),
        decreases n - i,
    {
        if !(chars[i] >= '0' && chars[i] <= '9') {
            assert(!is_decimal_digit(chars@[i as int]));
            return None;
        }
        i = i + 1;
    }
    let mut acc: u128 = 0;
    let mut j: usize = 0;
    proof {
        assert(chars@.subrange(0, 0) =~= Seq::<char>::empty());
    }
    while j < n
        invariant
            n == chars@.len(),
            chars@ == s@,
            j <= n,
            forall|k: int| 0 <= k < n ==> is_decimal_digit(#[trigger] chars@[k]),
            acc == decimal_value(chars@.subrange(0, j as int)),
            acc <= max,
        decreases n - j,
    {
        let d = (chars[j] as u32 - '0' as u32) as u128;
        let ghost t = chars@.subrange(0, j + 1);
        proof {
            assert(t.drop_last() =~= chars@.subrange(0, j as int));
            lemma_decimal_value_prefix(chars@, j + 1);
        }
        if d > max || acc > (max - d) / 10 {
            proof {
                if d <= max {
                    let q = (max - d) / 10;
                    assert(acc * 10 + d > max) by (nonlinear_arith)
                        requires acc > q, q == (max - d) / 10, d <= max;
                }
                assert(decimal_value(t) == acc * 10 + d);
            }
            return None;
        }
        acc = acc * 10 + d;
        j = j + 1;
    }
    proof {
        assert(chars@.subrange(0, n as int) =~= chars@);
    }
    Some(acc)
}

/// Why an observation cannot be handed to storage.
#[derive(Clone, Copy, Debug, PartialEq, Eq, Structural)]
pub enum ScanConversionError {
    /// The locator key is not a canonical version-1 key.
    LocatorKey,
    /// The byte size exceeds the signed 64-bit range.
    ByteSizeOutOfRange,
    /// The modification time exceeds the signed 64-bit nanosecond range.
    TimestampOutOfRange,
    /// The identity strings are not a canonical, in-range decimal pair.
    Identity,
}

/// A physical identity as exact decimal strings (JSON-safe, never numbers).
#[derive(Clone, Debug, PartialEq, Eq)]
pub struct EncodedIdentity {
    pub volume_serial: String,
    pub file_id: String,
}

/// One observation in the form storage stages.
#[derive(Clone, Debug, PartialEq, Eq)]
pub struct ScanObservation {
    pub locator_key: String,
    pub relative_path: String,
    pub byte_size: u64,
    pub modified_at_ns: i128,
    pub identity: Option<EncodedIdentity>,
}

/// The exact decimal strings of a qualified identity.
pub fn encode_identity(identity: &QualifiedIdentity) -> (r: Result<EncodedIdentity, ScanConversionError>)
    ensures
        r matches Ok(e) && e.volume_serial@ == decimal_chars(identity.volume_serial as nat)
            && e.file_id@ == decimal_chars(identity.file_id as nat),
{
    match identity.qualification {
        IdentityQualification::LocalNtfs => Ok(EncodedIdentity {
            volume_serial: decimal_string(identity.volume_serial as u128),
            file_id: decimal_string(identity.file_id),
        }),
    }
}

/// A canonical decimal no greater than `max`.
pub open spec fn decimal_within(s: Seq<char>, max: int) -> bool {
    is_canonical_decimal(s) && decimal_value(s) <= max
}

/// Whether an identity pair is acceptable: both absent, or a canonical
/// `u64` volume serial with a canonical `u128` file id.
pub open spec fn identity_pair_ok(volume_serial: Option<Seq<char>>, file_id: Option<Seq<char>>) -> bool {
    match (volume_serial, file_id) {
        (None, None) => true,
        (Some(v), Some(f)) => decimal_within(v, u64::MAX as int) && decimal_within(f, u128::MAX as int),
        _ => false,
    }
}

pub open spec fn opt_str_view(s: Option<&str>) -> Option<Seq<char>> {
    match s {
        Some(t) => Some(t@),
        None => None,
    }
}

/// Checks an identity pair as storage reads it back: negative, signed,
/// non-decimal, leading-zero, overflowing and half-present pairs reject.
pub fn validate_identity_pair(volume_serial: Option<&str>, file_id: Option<&str>) -> (r: Result<Option<EncodedIdentity>, ScanConversionError>)
    ensures
        match r {
            Ok(None) => volume_serial is None && file_id is None,
            Ok(Some(e)) => identity_pair_ok(opt_str_view(volume_serial), opt_str_view(file_id))
                && opt_str_view(volume_serial) == Some(e.volume_serial@) && opt_str_view(file_id) == Some(e.file_id@),
            Err(err) => !identity_pair_ok(opt_str_view(volume_serial), opt_str_view(file_id))
                && err == ScanConversionError::Identity,
        },
{
    match (volume_serial, file_id) {
        (None, None) => Ok(None),
        (Some(v), Some(f)) => {
            if parse_canonical_decimal(v, u64::MAX as u128).is_none() {
                return Err(ScanConversionError::Identity);
            }
            if parse_canonical_decimal(f, u128::MAX).is_none() {
                return Err(ScanConversionError::Identity);
            }
            Ok(Some(EncodedIdentity { volume_serial: v.to_owned(), file_id: f.to_owned() }))
        },
        _ => Err(ScanConversionError::Identity),
    }
}

pub open spec fn is_unreserved_key_char(c: char) -> bool {
    ('a' <= c && c <= 'z') || ('A' <= c && c <= 'Z') || ('0' <= c && c <= '9') || c == '-' || c == '_' || c == '.' || c == '~'
}

pub open spec fn is_upper_hex_digit(c: char) -> bool {
    ('0' <= c && c <= '9') || ('A' <= c && c <= 'F')
}

/// A segment of the key body may start at `q`.
pub open spec fn segment_starts(body: Seq<char>, q: int) -> bool {
    q == 0 || body[q - 1] == '/'
}

/// Position `q` of a key body is well formed: a segment opens with its mode
/// (`i` insensitive or `s` sensitive), a colon and at least one encoded
/// character; after it come `/` separators, unreserved characters and
/// `%XX` escapes with upper-case hexadecimal digits.
pub open spec fn key_position_ok(body: Seq<char>, q: int) -> bool {
    if segment_starts(body, q) {
        &&& (body[q] == 'i' || body[q] == 's')
        &&& q + 2 < body.len()
        &&& body[q + 1] == ':'
        &&& body[q + 2] != '/'
    } else if q >= 1 && segment_starts(body, q - 1) {
        true
    } else {
        ||| body[q] == '/'
        ||| is_unreserved_key_char(body[q])
        ||| (body[q] == '%' && q + 2 < body.len() && is_upper_hex_digit(body[q + 1]) && is_upper_hex_digit(body[q + 2]))
    }
}

/// A canonical version-1 locator key:
/// `"v1:" segment *("/" segment)`, `segment = ("i" / "s") ":" 1*(unreserved / "%" HEXUP HEXUP)`,
/// at most `MAX_OBSERVATION_KEY_BYTES` long (all of it ASCII).
pub open spec fn locator_key_valid(k: Seq<char>) -> bool {
    let body = k.subrange(3, k.len() as int);
    &&& k.len() <= MAX_OBSERVATION_KEY_BYTES
    &&& k.len() > 3
    &&& k[0] == 'v' && k[1] == '1' && k[2] == ':'
    &&& body.last() != '/'
    &&& forall|q: int| 0 <= q < body.len() ==> #[trigger] key_position_ok(body, q)
}

fn is_unreserved(c: char) -> (r: bool)
    ensures
        r == is_unreserved_key_char(c),
{
    ('a' <= c && c <= 'z') || ('A' <= c && c <= 'Z') || ('0' <= c && c <= '9') || c == '-' || c == '_' || c == '.' || c == '~'
}

fn is_hex_upper(c: char) -> (r: bool)
    ensures
        r == is_upper_hex_digit(c),
{
    ('0' <= c && c <= '9') || ('A' <= c && c <= 'F')
}

/// Checks the locator key grammar.
pub fn is_valid_locator_key(key: &str) -> (r: bool)
    ensures
        r == locator_key_valid(key@),
{
    let chars = chars_of(key);
    let n = chars.len();
    if n > MAX_OBSERVATION_KEY_BYTES || n <= 3 {
        return false;
    }
    if !(chars[0] == 'v' && chars[1] == '1' && chars[2] == ':') {
        return false;
    }
    let ghost body = chars@.subrange(3, n as int);
    if chars[n - 1] == '/' {
        assert(body.last() == '/');
        return false;
    }
    let mut q: usize = 0;
    let m = n - 3;
    while q < m
        invariant
            m == n - 3,
            n == chars@.len(),
            chars@ == key@,
            n <= MAX_OBSERVATION_KEY_BYTES,
            body == chars@.subrange(3, n as int),
            q <= m,
            forall|p: int| 0 <= p < q ==> #[trigger] key_position_ok(body, p),
        decreases m - q,
    {
        let c = chars[q + 3];
        assert(body[q as int] == c);
        let starts = q == 0 || chars[q + 2] == '/';
        let after_start = q >= 1 && (q == 1 || chars[q + 1] == '/');
        proof {
            if q >= 1 {
                assert(body[q - 1] == chars@[q + 2]);
            }
            if q >= 2 {
                assert(body[q - 2] == chars@[q + 1]);
            }
        }
        let ok = if starts {
            (c == 'i' || c == 's') && q + 2 < m && chars[q + 4] == ':' && chars[q + 5] != '/'
        } else if after_start {
            true
        } else {
            c == '/' || is_unreserved(c) || (c == '%' && q + 2 < m && is_hex_upper(chars[q + 4]) && is_hex_upper(chars[q + 5]))
        };
        proof {
            if q + 2 < m {
                assert(body[q + 1] == chars@[q + 4]);
                assert(body[q + 2] == chars@[q + 5]);
            }
            assert(ok == key_position_ok(body, q as int));
        }
        if !ok {
            return false;
        }
        q = q + 1;
    }
    true
}

/// Why an observation cannot be staged, checking in a fixed order: the
/// locator key, the byte size, the modification time, then the identity.
pub open spec fn scan_observation_error(key: Seq<char>, byte_size: u64, modified_at_ns: i128, identity: Option<(Seq<char>, Seq<char>)>) -> Option<ScanConversionError> {
    if !locator_key_valid(key) {
        Some(ScanConversionError::LocatorKey)
    } else if byte_size > i64::MAX {
        Some(ScanConversionError::ByteSizeOutOfRange)
    } else if !fits_i64(modified_at_ns as int) {
        Some(ScanConversionError::TimestampOutOfRange)
    } else if identity matches Some((v, f)) && !identity_pair_ok(Some(v), Some(f)) {
        Some(ScanConversionError::Identity)
    } else {
        None
    }
}

pub open spec fn encoded_identity_view(e: Option<EncodedIdentity>) -> Option<(Seq<char>, Seq<char>)> {
    match e {
        Some(i) => Some((i.volume_serial@, i.file_id@)),
        None => None,
    }
}

/// Checks an observation against what storage accepts.
pub fn validate_scan_observation(observation: &ScanObservation) -> (r: Result<(), ScanConversionError>)
    ensures
        match r {
            Ok(()) => scan_observation_error(observation.locator_key@, observation.byte_size, observation.modified_at_ns,
                encoded_identity_view(observation.identity)) is None,
            Err(e) => scan_observation_error(observation.locator_key@, observation.byte_size, observation.modified_at_ns,
                encoded_identity_view(observation.identity)) == Some(e),
        },
{
    if !is_valid_locator_key(observation.locator_key.as_str()) {
        return Err(ScanConversionError::LocatorKey);
    }
    if observation.byte_size > i64::MAX as u64 {
        return Err(ScanConversionError::ByteSizeOutOfRange);
    }
    if unix_ns_to_i64_checked(observation.modified_at_ns).is_err() {
        return Err(ScanConversionError::TimestampOutOfRange);
    }
    match &observation.identity {
        Some(identity) => {
            match validate_identity_pair(Some(identity.volume_serial.as_str()), Some(identity.file_id.as_str())) {
                Ok(_) => Ok(()),
                Err(e) => Err(e),
            }
        },
        None => Ok(()),
    }
}

} // verus!
