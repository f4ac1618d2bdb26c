//! Relative-path and notification-action types for the watcher boundary.
//!
//! OS notification payloads are reduced to validated root-relative path bytes
//! plus an action code before they can enter any public type. Absolute-shaped,
//! traversal-shaped, or otherwise invalid path bytes are never surfaced: the
//! record is counted as obscured activity and dropped. No public type can
//! carry an absolute path.
use vstd::prelude::*;
use vstd::utf8::{encode_utf8, valid_utf8};

verus! {

/// Windows `FILE_ACTION_*` notification action codes (`winnt.h`). Kept local
/// so the parser below stays cross-platform.
pub const FILE_ACTION_ADDED: u32 = 0x0000_0001;
pub const FILE_ACTION_REMOVED: u32 = 0x0000_0002;
pub const FILE_ACTION_MODIFIED: u32 = 0x0000_0003;
pub const FILE_ACTION_RENAMED_OLD_NAME: u32 = 0x0000_0004;
pub const FILE_ACTION_RENAMED_NEW_NAME: u32 = 0x0000_0005;

/// Maximum validated relative-path byte length. Matches the reconciliation
/// core's per-path bound so hints can never exceed downstream limits.
pub const MAX_RELATIVE_PATH_BYTES: usize = 32_768;

/// Why a root-relative path was rejected. Never echoes the rejected bytes.
#[derive(Clone, Copy, Debug, PartialEq, Eq, Structural)]
pub enum RelativePathRejected {
    Empty,
    TooLong,
    NotUtf8,
    RootedOrAbsolute,
    ColonOrNul,
    DotComponent,
}

pub open spec fn is_separator(b: u8) -> bool {
    b == 0x2f || b == 0x5c
}

/// A path part may start at `i`: at the beginning or right after a separator.
pub open spec fn part_starts(b: Seq<u8>, i: int) -> bool {
    i == 0 || is_separator(b[i - 1])
}

/// A path part may end at `j`: at the end or right before a separator.
pub open spec fn part_ends(b: Seq<u8>, j: int) -> bool {
    j == b.len() || is_separator(b[j])
}

/// Splitting `b` on `/` and `\` yields an empty, `.` or `..` part starting at `i`.
pub open spec fn dot_part_at(b: Seq<u8>, i: int) -> bool {
    &&& 0 <= i <= b.len()
    &&& part_starts(b, i)
    &&& {
        ||| part_ends(b, i)
        ||| (i < b.len() && b[i] == 0x2e && part_ends(b, i + 1))
        ||| (i + 1 < b.len() && b[i] == 0x2e && b[i + 1] == 0x2e && part_ends(b, i + 2))
    }
}

pub open spec fn has_dot_part(b: Seq<u8>) -> bool {
    exists|i: int| dot_part_at(b, i)
}

/// `b[i..j]` is one whole part of `b` split on `/` and `\`.
pub open spec fn part_between(b: Seq<u8>, i: int, j: int) -> bool {
    &&& 0 <= i <= j <= b.len()
    &&& (i == 0 || is_separator(b[i - 1]))
    &&& (j == b.len() || is_separator(b[j]))
    &&& forall|k: int| i <= k < j ==> !is_separator(#[trigger] b[k])
}

/// A path has a dot component exactly when one of its parts, split on `/`
/// and `\\`, is empty, `.` or `..`; a part that merely starts with a dot
/// (`.samples`, `..x`) is an ordinary name.
pub proof fn law_dot_components_are_exactly_empty_dot_and_dotdot(b: Seq<u8>)
    ensures
        has_dot_part(b) <==> exists|i: int, j: int| #[trigger] part_between(b, i, j) && {
            ||| b.subrange(i, j) == Seq::<u8>::empty()
            ||| b.subrange(i, j) == seq![0x2eu8]
            ||| b.subrange(i, j) == seq![0x2eu8, 0x2eu8]
        },
{
    if has_dot_part(b) {
        let i = choose|i: int| dot_part_at(b, i);
        if part_ends(b, i) {
            assert(b.subrange(i, i) =~= Seq::<u8>::empty());
            assert(part_between(b, i, i));
        } else if i < b.len() && b[i] == 0x2e && part_ends(b, i + 1) {
            assert(b.subrange(i, i + 1) =~= seq![0x2eu8]);
            assert(part_between(b, i, i + 1));
        } else {
            assert(b.subrange(i, i + 2) =~= seq![0x2eu8, 0x2eu8]);
            assert(part_between(b, i, i + 2));
        }
    }
    if exists|i: int, j: int| #[trigger] part_between(b, i, j) && {
        ||| b.subrange(i, j) == Seq::<u8>::empty()
        ||| b.subrange(i, j) == seq![0x2eu8]
        ||| b.subrange(i, j) == seq![0x2eu8, 0x2eu8]
    } {
        let (i, j) = choose|i: int, j: int| #[trigger] part_between(b, i, j) && {
            ||| b.subrange(i, j) == Seq::<u8>::empty()
            ||| b.subrange(i, j) == seq![0x2eu8]
            ||| b.subrange(i, j) == seq![0x2eu8, 0x2eu8]
        };
        assert(b.subrange(i, j).len() == j - i);
        if j > i {
            assert(b[i] == b.subrange(i, j)[0]);
        }
        if j > i + 1 {
            assert(b[i + 1] == b.subrange(i, j)[1]);
        }
        assert(dot_part_at(b, i));
    }
}

/// A relative path that is not empty, not too long, does not start with a
/// separator, holds no colon or NUL and is valid UTF-8 is accepted exactly
/// when none of its parts is empty, `.` or `..`.
pub proof fn law_accepted_paths_are_those_without_dot_parts(b: Seq<u8>)
    requires
        b.len() > 0,
        b.len() <= MAX_RELATIVE_PATH_BYTES,
        !is_separator(b[0]),
        !b.contains(0x3a),
        !b.contains(0),
        valid_utf8(b),
    ensures
        path_rejection(b) is None <==> !exists|i: int, j: int| #[trigger] part_between(b, i, j) && {
            ||| b.subrange(i, j) == Seq::<u8>::empty()
            ||| b.subrange(i, j) == seq![0x2eu8]
            ||| b.subrange(i, j) == seq![0x2eu8, 0x2eu8]
        },
        path_rejection(b) is Some ==> path_rejection(b) == Some(RelativePathRejected::DotComponent),
{
    law_dot_components_are_exactly_empty_dot_and_dotdot(b);
}

/// Why `b` is not a valid root-relative path, checking in a fixed order:
/// emptiness, length, a leading separator, a colon or NUL, UTF-8 validity,
/// then empty, `.` and `..` parts. `None` when it is valid.
pub open spec fn path_rejection(b: Seq<u8>) -> Option<RelativePathRejected> {
    if b.len() == 0 {
        Some(RelativePathRejected::Empty)
    } else if b.len() > MAX_RELATIVE_PATH_BYTES {
        Some(RelativePathRejected::TooLong)
    } else if is_separator(b[0]) {
        Some(RelativePathRejected::RootedOrAbsolute)
    } else if b.contains(0x3a) || b.contains(0) {
        Some(RelativePathRejected::ColonOrNul)
    } else if !valid_utf8(b) {
        Some(RelativePathRejected::NotUtf8)
    } else if has_dot_part(b) {
        Some(RelativePathRejected::DotComponent)
    } else {
        None
    }
}

/// `std::str::from_utf8`: whether the bytes are well-formed UTF-8.
#[verifier::external_body]
fn is_utf8(bytes: &[u8]) -> (r: bool)
    ensures
        r == valid_utf8(bytes@),
{
    std::str::from_utf8(bytes).is_ok()
}

/// A validated, root-relative notification path.
///
/// The bytes are the root-relative name as reported by the OS boundary,
/// converted to UTF-8 (invalid surrogates become U+FFFD). Validation rejects
/// anything that could read as absolute or escape the root, so no public type
/// here can carry an absolute path. `Debug` redacts the bytes.
#[derive(PartialEq, Eq)]
pub struct RelativePath {
    bytes: Vec<u8>,
}

impl Clone for RelativePath {
    fn clone(&self) -> (r: Self)
        ensures
            r@ == self@,
    {
        proof { use_type_invariant(self); }
        let bytes = self.bytes.clone();
        assert(bytes@ =~= self.bytes@);
        RelativePath { bytes }
    }
}

impl View for RelativePath {
    type V = Seq<u8>;

    closed spec fn view(&self) -> Seq<u8> {
        self.bytes@
    }
}

fn contains_byte(bytes: &Vec<u8>, x: u8) -> (r: bool)
    ensures
        r == bytes@.contains(x),
{
    let mut i: usize = 0;
    while i < bytes.len()
        invariant
            i <= bytes.len(),
            forall|k: int| 0 <= k < i ==> bytes@[k] != x,
        decreases bytes.len() - i,
    {
        if bytes[i] == x {
            return true;
        }
        i = i + 1;
    }
    false
}

fn is_sep(b: u8) -> (r: bool)
    ensures
        r == is_separator(b),
{
    b == 0x2f || b == 0x5c
}

fn find_dot_part(b: &Vec<u8>) -> (r: bool)
    requires
        b.len() <= MAX_RELATIVE_PATH_BYTES,
    ensures
        r == has_dot_part(b@),
{
    let n = b.len();
    let mut i: usize = 0;
    while i <= n
        invariant
            n == b.len(),
            n <= MAX_RELATIVE_PATH_BYTES,
            i <= n + 1,
            forall|k: int| 0 <= k < i ==> !dot_part_at(b@, k),
        decreases n + 1 - i,
    {
        let starts = i == 0 || is_sep(b[i - 1]);
        if starts {
            let ends0 = i == n || is_sep(b[i]);
            let dot1 = i < n && b[i] == 0x2e && (i + 1 == n || is_sep(b[i + 1]));
            let dot2 = i + 1 < n && b[i] == 0x2e && b[i + 1] == 0x2e && (i + 2 == n || is_sep(b[i + 2]));
            if ends0 || dot1 || dot2 {
                assert(dot_part_at(b@, i as int));
                return true;
            }
        }
        i = i + 1;
    }
    assert forall|k: int| !dot_part_at(b@, k) by {
        if 0 <= k <= n {
            assert(k < i);
        }
    }
    false
}

impl RelativePath {
    /// Every relative path holds bytes that pass validation.
    #[verifier::type_invariant]
    spec fn validated(self) -> bool {
        path_rejection(self.bytes@) is None
    }

    /// Validates and wraps root-relative path bytes, with the same defensive
    /// rules as the reconciliation core.
    pub fn from_bytes(bytes: Vec<u8>) -> (r: Result<Self, RelativePathRejected>)
        ensures
            match r {
                Ok(p) => path_rejection(bytes@) is None && p@ == bytes@,
                Err(e) => path_rejection(bytes@) == Some(e),
            },
    {
        if bytes.len() == 0 {
            return Err(RelativePathRejected::Empty);
        }
        if bytes.len() > MAX_RELATIVE_PATH_BYTES {
            return Err(RelativePathRejected::TooLong);
        }
        if is_sep(bytes[0]) {
            return Err(RelativePathRejected::RootedOrAbsolute);
        }
        if contains_byte(&bytes, 0x3a) || contains_byte(&bytes, 0) {
            return Err(RelativePathRejected::ColonOrNul);
        }
        if !is_utf8(bytes.as_slice()) {
            return Err(RelativePathRejected::NotUtf8);
        }
        if find_dot_part(&bytes) {
            return Err(RelativePathRejected::DotComponent);
        }
        assert(path_rejection(bytes@) is None);
        Ok(RelativePath { bytes })
    }

    /// The validated root-relative path bytes. Opaque by contract: consumers
    /// must not interpret them; they are hints, not state.
    pub fn as_bytes(&self) -> (r: &[u8])
        ensures
            r@ == self@,
            path_rejection(r@) is None,
    {
        proof { use_type_invariant(self); }
        self.bytes.as_slice()
    }

    /// The redacted rendering: the byte count only, never the bytes.
    pub fn redacted_len(&self) -> (n: usize)
        ensures
            n == self@.len(),
    {
        self.bytes.len()
    }
}

#[verifier::external_type_specification]
#[verifier::external_body]
pub struct ExFormatter<'a>(core::fmt::Formatter<'a>);

#[verifier::external_type_specification]
#[verifier::external_body]
pub struct ExFmtError(core::fmt::Error);

impl core::fmt::Debug for RelativePath {
    /// Writes `RelativePath(<n> bytes)`: the byte count, never the bytes.
    #[verifier::external_body]
    fn fmt(&self, formatter: &mut core::fmt::Formatter<'_>) -> core::fmt::Result {
        write!(formatter, "RelativePath({} bytes)", self.bytes.len())
    }
}

/// A Windows notification action code, mapped from `FILE_ACTION_*`.
#[derive(Clone, Copy, Debug, PartialEq, Eq, Hash, Structural)]
pub enum NotifyAction {
    Added,
    Removed,
    Modified,
    RenamedOldName,
    RenamedNewName,
}

/// The action a `FILE_ACTION_*` code names, if any.
pub open spec fn action_of(code: u32) -> Option<NotifyAction> {
    if code == FILE_ACTION_ADDED {
        Some(NotifyAction::Added)
    } else if code == FILE_ACTION_REMOVED {
        Some(NotifyAction::Removed)
    } else if code == FILE_ACTION_MODIFIED {
        Some(NotifyAction::Modified)
    } else if code == FILE_ACTION_RENAMED_OLD_NAME {
        Some(NotifyAction::RenamedOldName)
    } else if code == FILE_ACTION_RENAMED_NEW_NAME {
        Some(NotifyAction::RenamedNewName)
    } else {
        None
    }
}

impl NotifyAction {
    /// Maps a `FILE_ACTION_*` code; unknown codes map to `None`.
    pub fn from_code(code: u32) -> (r: Option<Self>)
        ensures
            r == action_of(code),
    {
        match code {
            FILE_ACTION_ADDED => Some(NotifyAction::Added),
            FILE_ACTION_REMOVED => Some(NotifyAction::Removed),
            FILE_ACTION_MODIFIED => Some(NotifyAction::Modified),
            FILE_ACTION_RENAMED_OLD_NAME => Some(NotifyAction::RenamedOldName),
            FILE_ACTION_RENAMED_NEW_NAME => Some(NotifyAction::RenamedNewName),
            _ => None,
        }
    }
}

/// One raw watcher observation: only relative-path bytes plus an action code.
/// `Obscured` records activity that could not be surfaced (unknown action
/// code or invalid path bytes); it never carries path bytes.
#[derive(Clone, Debug, PartialEq, Eq)]
pub enum RawEvent {
    Change { action: NotifyAction, relative_path: RelativePath },
    Obscured,
}

/// The model of a raw event: the action and the path bytes, or obscured.
pub enum EventView {
    Change { action: NotifyAction, path: Seq<u8> },
    Obscured,
}

impl View for RawEvent {
    type V = EventView;

    open spec fn view(&self) -> EventView {
        match self {
            RawEvent::Change { action, relative_path } => EventView::Change { action: *action, path: relative_path@ },
            RawEvent::Obscured => EventView::Obscured,
        }
    }
}

pub open spec fn is_high_surrogate(u: u16) -> bool {
    0xD800 <= u <= 0xDBFF
}

pub open spec fn is_low_surrogate(u: u16) -> bool {
    0xDC00 <= u <= 0xDFFF
}

/// The scalar a high and a low surrogate encode together.
pub open spec fn surrogate_pair_scalar(high: u16, low: u16) -> u32 {
    (0x10000 + (high - 0xD800) * 0x400 + (low - 0xDC00)) as u32
}

/// UTF-16 decoding with each unpaired surrogate replaced by U+FFFD.
pub open spec fn utf16_lossy(units: Seq<u16>) -> Seq<char>
    decreases units.len(),
{
    if units.len() == 0 {
        seq![]
    } else if units.len() >= 2 && is_high_surrogate(units[0]) && is_low_surrogate(units[1]) {
        seq![surrogate_pair_scalar(units[0], units[1]) as char] + utf16_lossy(units.subrange(2, units.len() as int))
    } else if is_high_surrogate(units[0]) || is_low_surrogate(units[0]) {
        seq!['\u{FFFD}'] + utf16_lossy(units.drop_first())
    } else {
        seq![units[0] as u32 as char] + utf16_lossy(units.drop_first())
    }
}

/// The little-endian UTF-16 code units of `b` (of even length).
pub open spec fn utf16_units(b: Seq<u8>) -> Seq<u16> {
    Seq::new(b.len() / 2, |k: int| (b[2 * k] as int + b[2 * k + 1] as int * 256) as u16)
}

/// What one notification record with `action` and UTF-16LE `name` bytes
/// becomes: a change carrying the UTF-8 path when the action is known and the
/// decoded path is valid, and obscured activity otherwise.
pub open spec fn record_event(action: u32, name: Seq<u8>) -> EventView {
    if name.len() % 2 != 0 {
        EventView::Obscured
    } else {
        match action_of(action) {
            None => EventView::Obscured,
            Some(a) => {
                let path = encode_utf8(utf16_lossy(utf16_units(name)));
                if path_rejection(path) is None {
                    EventView::Change { action: a, path }
                } else {
                    EventView::Obscured
                }
            },
        }
    }
}

pub open spec fn is_scalar_value(v: u32) -> bool {
    v <= 0xD7FF || (0xE000 <= v && v <= 0x10FFFF)
}

/// `char::from_u32`: the character with scalar value `v`, if `v` is one.
#[verifier::external_body]
fn char_from_scalar(v: u32) -> (r: Option<char>)
    ensures
        r is Some <==> is_scalar_value(v),
        r matches Some(c) ==> c as u32 == v,
{
    char::from_u32(v)
}

fn scalar_char(v: u32) -> (c: char)
    requires
        is_scalar_value(v),
    ensures
        c == v as char,
{
    match char_from_scalar(v) {
        Some(c) => {
            proof { vstd::utf8::char_u32_cast(c, v); }
            c
        },
        None => {
            proof { assert(false); }
            '\u{FFFD}'
        },
    }
}

proof fn lemma_utf16_lossy_step(units: Seq<u16>, i: int)
    requires
        0 <= i < units.len(),
    ensures
        ({
            let rest = units.subrange(i, units.len() as int);
            if i + 1 < units.len() && is_high_surrogate(units[i]) && is_low_surrogate(units[i + 1]) {
                utf16_lossy(rest) == seq![surrogate_pair_scalar(units[i], units[i + 1]) as char]
                    + utf16_lossy(units.subrange(i + 2, units.len() as int))
            } else if is_high_surrogate(units[i]) || is_low_surrogate(units[i]) {
                utf16_lossy(rest) == seq!['\u{FFFD}'] + utf16_lossy(units.subrange(i + 1, units.len() as int))
            } else {
                utf16_lossy(rest) == seq![units[i] as u32 as char] + utf16_lossy(units.subrange(i + 1, units.len() as int))
            }
        }),
{
    let rest = units.subrange(i, units.len() as int);
    assert(rest.drop_first() =~= units.subrange(i + 1, units.len() as int));
    if i + 1 < units.len() {
        assert(rest.subrange(2, rest.len() as int) =~= units.subrange(i + 2, units.len() as int));
    }
}

/// Decodes little-endian UTF-16 `name[start..end]` lossily into characters.
fn decode_utf16_lossy(name: &[u8], start: usize, end: usize) -> (r: Vec<char>)
    requires
        start <= end <= name.len(),
        (end - start) % 2 == 0,
    ensures
        r@ == utf16_lossy(utf16_units(name@.subrange(start as int, end as int))),
{
    let ghost units = utf16_units(name@.subrange(start as int, end as int));
    let n = (end - start) / 2;
    let mut out: Vec<char> = Vec::new();
    let mut i: usize = 0;
    proof {
        assert(units.subrange(0, units.len() as int) =~= units);
    }
    while i < n
        invariant
            n == units.len(),
            start <= end <= name.len(),
            n * 2 == end - start,
            i <= n,
            units == utf16_units(name@.subrange(start as int, end as int)),
            out@ + utf16_lossy(units.subrange(i as int, n as int)) == utf16_lossy(units),
        decreases n - i,
    {
        let u = (name[start + 2 * i] as u16) + (name[start + 2 * i + 1] as u16) * 256;
        assert(u == units[i as int]);
        proof { lemma_utf16_lossy_step(units, i as int); }
        if 0xD800 <= u && u <= 0xDBFF && i + 1 < n {
            let w = (name[start + 2 * i + 2] as u16) + (name[start + 2 * i + 3] as u16) * 256;
            assert(w == units[i + 1]);
            if 0xDC00 <= w && w <= 0xDFFF {
                let v: u32 = 0x10000 + ((u - 0xD800) as u32) * 0x400 + ((w - 0xDC00) as u32);
                let c = scalar_char(v);
                let ghost before = out@;
                out.push(c);
                proof {
                    assert(out@ =~= before + seq![surrogate_pair_scalar(units[i as int], units[i + 1]) as char]);
                    assert(before + seq![surrogate_pair_scalar(units[i as int], units[i + 1]) as char]
                        + utf16_lossy(units.subrange(i + 2, n as int)) =~= out@ + utf16_lossy(units.subrange(i + 2, n as int)));
                }
                i = i + 2;
                continue;
            }
        }
        let ghost before = out@;
        if 0xD800 <= u && u <= 0xDFFF {
            out.push('\u{FFFD}');
            proof {
                assert(out@ =~= before + seq!['\u{FFFD}']);
            }
        } else {
            let c = scalar_char(u as u32);
            out.push(c);
            proof {
                assert(out@ =~= before + seq![units[i as int] as u32 as char]);
            }
        }
        proof {
            assert(before + seq![out@.last()] + utf16_lossy(units.subrange(i + 1, n as int))
                =~= out@ + utf16_lossy(units.subrange(i + 1, n as int)));
        }
        i = i + 1;
    }
    proof {
        assert(units.subrange(n as int, n as int) =~= Seq::<u16>::empty());
        assert(out@ + Seq::<char>::empty() =~= out@);
    }
    out
}

/// The UTF-8 bytes of the characters `chars`.
fn utf8_bytes(chars: &Vec<char>) -> (r: Vec<u8>)
    ensures
        r@ == encode_utf8(chars@),
{
    let text = crate::text::string_from_chars(chars);
    let bytes = text.as_str().as_bytes();
    let mut out: Vec<u8> = Vec::new();
    let mut i: usize = 0;
    while i < bytes.len()
        invariant
            i <= bytes@.len(),
            bytes@ == encode_utf8(chars@),
            out@ == bytes@.subrange(0, i as int),
        decreases bytes.len() - i,
    {
        out.push(bytes[i]);
        i = i + 1;
        assert(out@ =~= bytes@.subrange(0, i as int));
    }
    assert(bytes@.subrange(0, bytes@.len() as int) =~= bytes@);
    out
}

/// Reduces one notification record, `action` with the UTF-16LE name
/// `buffer[start..end]`, to a change event; `None` when it must be obscured.
fn parse_record(action: u32, buffer: &[u8], start: usize, end: usize) -> (r: Option<RawEvent>)
    requires
        start <= end <= buffer.len(),
    ensures
        match r {
            Some(e) => e is Change && e@ == record_event(action, buffer@.subrange(start as int, end as int)),
            None => record_event(action, buffer@.subrange(start as int, end as int)) is Obscured,
        },
{
    if (end - start) % 2 != 0 {
        return None;
    }
    let action = match NotifyAction::from_code(action) {
        Some(a) => a,
        None => return None,
    };
    // Lossy conversion keeps the pipeline panic-free; unpaired surrogates
    // become U+FFFD. These bytes are hints, never state.
    let chars = decode_utf16_lossy(buffer, start, end);
    let bytes = utf8_bytes(&chars);
    match RelativePath::from_bytes(bytes) {
        Ok(relative_path) => Some(RawEvent::Change { action, relative_path }),
        Err(_) => None,
    }
}

/// The little-endian `u32` at `b[at..at + 4]`.
pub open spec fn le_u32_at(b: Seq<u8>, at: int) -> int {
    b[at] as int + b[at + 1] as int * 256 + b[at + 2] as int * 65536 + b[at + 3] as int * 16777216
}

/// The events of the `FILE_NOTIFY_INFORMATION` chain from the record at
/// `offset` on, and whether the walk was cut short. Each record is a
/// next-entry offset, an action code and a name length, then the name; a
/// record whose header or name overruns the buffer ends the walk as
/// truncated, and so does a next-entry offset that is below the header size,
/// not a multiple of four, or beyond the buffer. An offset of zero ends it.
pub open spec fn walk_records(b: Seq<u8>, offset: int) -> (Seq<EventView>, bool)
    decreases b.len() - offset,
{
    if offset < 0 || b.len() - offset < 12 {
        (seq![], true)
    } else {
        let next = le_u32_at(b, offset);
        let name_end = offset + 12 + le_u32_at(b, offset + 8);
        if name_end > b.len() {
            (seq![], true)
        } else {
            let ev = record_event(le_u32_at(b, offset + 4) as u32, b.subrange(offset + 12, name_end));
            if next == 0 {
                (seq![ev], false)
            } else if next < 12 || next % 4 != 0 || offset + next > b.len() {
                (seq![ev], true)
            } else {
                let rest = walk_records(b, offset + next);
                (seq![ev] + rest.0, rest.1)
            }
        }
    }
}

/// The events of a whole result buffer and whether it was truncated; an
/// empty buffer holds no records and is complete.
pub open spec fn parse_spec(b: Seq<u8>) -> (Seq<EventView>, bool) {
    if b.len() == 0 {
        (seq![], false)
    } else {
        walk_records(b, 0)
    }
}

pub open spec fn count_obscured(events: Seq<EventView>) -> nat
    decreases events.len(),
{
    if events.len() == 0 {
        0
    } else {
        count_obscured(events.drop_last()) + if events.last() is Obscured { 1nat } else { 0nat }
    }
}

/// Result of parsing one ReadDirectoryChangesW result buffer.
pub struct ParsedBatch {
    /// One queued item per visited record; every record becomes activity.
    pub events: Vec<RawEvent>,
    /// Records surfaced as `RawEvent::Obscured`.
    pub obscured: u64,
    /// The chain was malformed or overran the buffer; some records may not
    /// have been visited, so coverage is uncertain.
    pub truncated: bool,
}

pub open spec fn event_views(events: Seq<RawEvent>) -> Seq<EventView> {
    events.map_values(|e: RawEvent| e@)
}

fn read_u32_le(b: &[u8], at: usize) -> (r: u32)
    requires
        at + 4 <= b.len(),
    ensures
        r == le_u32_at(b@, at as int),
{
    (b[at] as u32) + (b[at + 1] as u32) * 256 + (b[at + 2] as u32) * 65536 + (b[at + 3] as u32) * 16777216
}

/// Parses a ReadDirectoryChangesW `FILE_NOTIFY_INFORMATION` chain
/// defensively. Malformed offsets stop the walk and mark the batch truncated
/// rather than trusting unverified lengths.
pub fn parse_notify_buffer(buffer: &[u8]) -> (batch: ParsedBatch)
    ensures
        event_views(batch.events@) == parse_spec(buffer@).0,
        batch.truncated == parse_spec(buffer@).1,
        batch.obscured == count_obscured(parse_spec(buffer@).0),
{
    if buffer.len() == 0 {
        proof { assert(event_views(Seq::<RawEvent>::empty()) =~= Seq::<EventView>::empty()); }
        return ParsedBatch { events: Vec::new(), obscured: 0, truncated: false };
    }
    let ghost b = buffer@;
    let mut events: Vec<RawEvent> = Vec::new();
    let mut obscured: u64 = 0;
    let mut truncated = false;
    let mut offset: usize = 0;
    proof {
        assert(event_views(events@) =~= Seq::<EventView>::empty());
        assert(parse_spec(b).0 =~= event_views(events@) + walk_records(b, 0).0);
    }
    loop
        invariant_except_break
            offset <= buffer.len(),
            events@.len() * 12 <= offset,
            !truncated,
            parse_spec(b) == (event_views(events@) + walk_records(b, offset as int).0, walk_records(b, offset as int).1),
        invariant
            b == buffer@,
            buffer.len() > 0,
            obscured == count_obscured(event_views(events@)),
            obscured <= events@.len(),
        ensures
            event_views(events@) == parse_spec(b).0,
            truncated == parse_spec(b).1,
        decreases buffer.len() - offset,
    {
        if buffer.len() - offset < 12 {
            truncated = true;
            proof { assert(event_views(events@) + Seq::<EventView>::empty() =~= event_views(events@)); }
            break;
        }
        let next_entry_offset = read_u32_le(buffer, offset);
        let action = read_u32_le(buffer, offset + 4);
        let name_length = read_u32_le(buffer, offset + 8) as usize;
        let name_start = offset + 12;
        let name_end = match name_start.checked_add(name_length) {
            Some(e) => e,
            None => {
                truncated = true;
                proof { assert(event_views(events@) + Seq::<EventView>::empty() =~= event_views(events@)); }
                break;
            },
        };
        if name_end > buffer.len() {
            truncated = true;
            proof { assert(event_views(events@) + Seq::<EventView>::empty() =~= event_views(events@)); }
            break;
        }
        let ghost ev = record_event(action, b.subrange(name_start as int, name_end as int));
        let ghost before = events@;
        match parse_record(action, buffer, name_start, name_end) {
            Some(event) => events.push(event),
            None => {
                obscured = obscured + 1;
                events.push(RawEvent::Obscured);
            },
        }
        proof {
            assert(events@.drop_last() =~= before);
            assert(event_views(events@).drop_last() =~= event_views(before));
            assert(event_views(events@) =~= event_views(before) + seq![ev]);
        }
        if next_entry_offset == 0 {
            proof { assert(event_views(before) + seq![ev] =~= event_views(events@)); }
            break;
        }
        let step = next_entry_offset as usize;
        if step < 12 || step % 4 != 0 || step > buffer.len() - offset {
            truncated = true;
            break;
        }
        proof {
            let rest = walk_records(b, offset + step);
            assert(event_views(before) + (seq![ev] + rest.0) =~= event_views(events@) + rest.0);
        }
        offset = offset + step;
    }
    ParsedBatch { events, obscured, truncated }
}

proof fn lemma_walk_changes_valid(b: Seq<u8>, offset: int)
    ensures
        forall|i: int| 0 <= i < walk_records(b, offset).0.len() ==>
            (#[trigger] walk_records(b, offset).0[i] matches EventView::Change { path, .. } ==> path_rejection(path) is None),
    decreases b.len() - offset,
{
    if offset >= 0 && b.len() - offset >= 12 {
        let next = le_u32_at(b, offset);
        let name_end = offset + 12 + le_u32_at(b, offset + 8);
        if name_end <= b.len() && next != 0 && !(next < 12 || next % 4 != 0 || offset + next > b.len()) {
            lemma_walk_changes_valid(b, offset + next);
            let ev = record_event(le_u32_at(b, offset + 4) as u32, b.subrange(offset + 12, name_end));
            let rest = walk_records(b, offset + next).0;
            assert forall|i: int| 0 <= i < walk_records(b, offset).0.len() implies
                (#[trigger] walk_records(b, offset).0[i] matches EventView::Change { path, .. } ==> path_rejection(path) is None) by {
                if i > 0 {
                    assert(walk_records(b, offset).0[i] == rest[i - 1]);
                }
            }
        }
    }
}

/// No change event that the parser surfaces carries a rejected path: every
/// surfaced path is non-empty, bounded, root-relative, free of `:` and NUL,
/// valid UTF-8 and free of empty, `.` and `..` parts. Everything else is
/// obscured activity without bytes.
pub proof fn law_parsed_changes_carry_only_valid_paths(buffer: Seq<u8>)
    ensures
        forall|i: int| 0 <= i < parse_spec(buffer).0.len() ==>
            (#[trigger] parse_spec(buffer).0[i] matches EventView::Change { path, .. } ==> path_rejection(path) is None),
{
    if buffer.len() > 0 {
        lemma_walk_changes_valid(buffer, 0);
    }
}

} // verus!
