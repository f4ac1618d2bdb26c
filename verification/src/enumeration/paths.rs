//! Root-relative path normalization at the Windows boundary.
//!
//! A path splits on `/` and `\` into parts. A leading separator or a drive
//! prefix (`X:`) makes it absolute. Empty parts and `.` parts after the first
//! vanish; a leading `.` is a current-directory component and `..` a parent
//! component, and both are refused. Every remaining part must be a valid
//! entry name. The normalized form joins the parts with `\`.
use vstd::prelude::*;

use crate::text::{chars_of, push_char};

verus! {

/// Reasons a relative path cannot be accepted by the Windows boundary.
#[derive(Clone, Copy, Debug, PartialEq, Eq, Structural)]
pub enum PathError {
    Empty,
    Absolute,
    ParentTraversal,
    CurrentComponent,
    InvalidUnicode,
    Nul,
    AlternateDataStream,
    InvalidComponent,
}

/// A root-relative path retained for display/listing. It is not an identity.
#[derive(Debug, PartialEq, Eq, PartialOrd, Ord)]
pub struct DisplayRelativePath(String);

impl Clone for DisplayRelativePath {
    fn clone(&self) -> (r: Self)
        ensures
            r == *self,
    {
        DisplayRelativePath(self.0.clone())
    }
}

/// A root-relative locator serialized with the spelling returned by the
/// directory handle. Serialization is case-preserving and equality is exact:
/// the Windows boundary owns case-equivalence and performs duplicate
/// detection before delivery. Consumers treat it as an opaque locator.
#[derive(Clone, Debug, PartialEq, Eq, PartialOrd, Ord)]
pub struct NormalizedLocator(String);

impl View for DisplayRelativePath {
    type V = Seq<char>;

    closed spec fn view(&self) -> Seq<char> {
        self.0@
    }
}

impl View for NormalizedLocator {
    type V = Seq<char>;

    closed spec fn view(&self) -> Seq<char> {
        self.0@
    }
}

impl DisplayRelativePath {
    pub fn as_str(&self) -> (r: &str)
        ensures
            r@ == self@,
    {
        self.0.as_str()
    }

    /// Wraps text that is already a normalized relative path.
    pub(crate) fn from_normalized(s: String) -> (r: Self)
        ensures
            r@ == s@,
    {
        DisplayRelativePath(s)
    }
}

impl NormalizedLocator {
    pub fn as_str(&self) -> (r: &str)
        ensures
            r@ == self@,
    {
        self.0.as_str()
    }

    pub(crate) fn from_normalized(s: String) -> (r: Self)
        ensures
            r@ == s@,
    {
        NormalizedLocator(s)
    }
}

pub open spec fn is_path_separator(c: char) -> bool {
    c == '/' || c == '\\'
}

pub open spec fn is_ascii_letter(c: char) -> bool {
    ('a' <= c && c <= 'z') || ('A' <= c && c <= 'Z')
}

/// A leading separator (a root or a UNC/verbatim prefix) or a drive prefix.
pub open spec fn is_absolute_shape(s: Seq<char>) -> bool {
    (s.len() > 0 && is_path_separator(s[0])) || (s.len() >= 2 && is_ascii_letter(s[0]) && s[1] == ':')
}

/// The index of the first separator at or after `i`, or the length.
pub open spec fn next_separator(s: Seq<char>, i: int) -> int
    decreases s.len() - i,
{
    if i >= s.len() || is_path_separator(s[i]) {
        i
    } else {
        next_separator(s, i + 1)
    }
}

/// One path component.
pub enum Component {
    Normal(Seq<char>),
    CurDir,
    ParentDir,
}

/// The components of the parts of `s` from the part starting at `start`.
pub open spec fn components_from(s: Seq<char>, start: int) -> Seq<Component>
    decreases s.len() - start,
    when 0 <= start <= s.len()
{
    let end = next_separator(s, start);
    let p = s.subrange(start, end);
    let head = if p.len() == 0 {
        seq![]
    } else if p == seq!['.'] {
        if start == 0 { seq![Component::CurDir] } else { seq![] }
    } else if p == seq!['.', '.'] {
        seq![Component::ParentDir]
    } else {
        seq![Component::Normal(p)]
    };
    if end >= s.len() {
        head
    } else {
        proof {
            lemma_next_separator_bounds(s, start);
        }
        head + components_from(s, end + 1)
    }
}

pub open spec fn components(s: Seq<char>) -> Seq<Component> {
    components_from(s, 0)
}

/// Unicode general category Cc.
pub open spec fn is_control_char(c: char) -> bool {
    (c as u32) <= 0x1f || (0x7f <= (c as u32) && (c as u32) <= 0x9f)
}

pub open spec fn is_reserved_char(c: char) -> bool {
    c == '*' || c == '?' || c == '<' || c == '>' || c == '"' || c == '|'
}

/// Why one entry name is invalid, checking in a fixed order; `None` when it
/// is valid.
pub open spec fn component_error(v: Seq<char>) -> Option<PathError> {
    if v.len() == 0 {
        Some(PathError::InvalidComponent)
    } else if v.contains('\0') {
        Some(PathError::Nul)
    } else if v.contains(':') {
        Some(PathError::AlternateDataStream)
    } else if v.contains('/') || v.contains('\\') {
        Some(PathError::InvalidComponent)
    } else if exists|i: int| 0 <= i < v.len() && is_reserved_char(#[trigger] v[i]) {
        Some(PathError::InvalidComponent)
    } else if exists|i: int| 0 <= i < v.len() && is_control_char(#[trigger] v[i]) {
        Some(PathError::InvalidComponent)
    } else {
        None
    }
}

/// The error of the first component that is not a valid normal one.
pub open spec fn first_component_error(cs: Seq<Component>) -> Option<PathError>
    decreases cs.len(),
{
    if cs.len() == 0 {
        None
    } else {
        match cs[0] {
            Component::CurDir => Some(PathError::CurrentComponent),
            Component::ParentDir => Some(PathError::ParentTraversal),
            Component::Normal(p) => match component_error(p) {
                Some(e) => Some(e),
                None => first_component_error(cs.drop_first()),
            },
        }
    }
}

pub open spec fn normal_value(c: Component) -> Seq<char> {
    match c {
        Component::Normal(p) => p,
        _ => seq![],
    }
}

/// The parts joined with `\`.
pub open spec fn join_backslash(ps: Seq<Seq<char>>) -> Seq<char>
    decreases ps.len(),
{
    if ps.len() == 0 {
        seq![]
    } else if ps.len() == 1 {
        ps[0]
    } else {
        join_backslash(ps.drop_last()) + seq!['\\'] + ps.last()
    }
}

/// What normalizing `s` gives: the joined components, or the first error.
pub open spec fn normalize_spec(s: Seq<char>) -> Result<Seq<char>, PathError> {
    if is_absolute_shape(s) {
        Err(PathError::Absolute)
    } else {
        let cs = components(s);
        match first_component_error(cs) {
            Some(e) => Err(e),
            None => if cs.len() == 0 {
                Err(PathError::Empty)
            } else {
                Ok(join_backslash(cs.map_values(|c: Component| normal_value(c))))
            },
        }
    }
}

/// Why a directory entry name is invalid: it must be exactly one normal
/// component, itself a valid entry name. `None` when it is valid.
pub open spec fn entry_name_error(name: Seq<char>) -> Option<PathError> {
    let cs = components(name);
    if is_absolute_shape(name) || cs.len() != 1 || !(cs[0] is Normal) {
        Some(PathError::InvalidComponent)
    } else {
        component_error(normal_value(cs[0]))
    }
}

proof fn lemma_first_error_append(a: Seq<Component>, b: Seq<Component>)
    ensures
        first_component_error(a + b) == (if first_component_error(a) is Some {
            first_component_error(a)
        } else {
            first_component_error(b)
        }),
    decreases a.len(),
{
    if a.len() == 0 {
        assert(a + b =~= b);
    } else {
        assert((a + b).drop_first() =~= a.drop_first() + b);
        lemma_first_error_append(a.drop_first(), b);
    }
}

pub proof fn lemma_next_separator_bounds(s: Seq<char>, i: int)
    requires
        0 <= i <= s.len(),
    ensures
        i <= next_separator(s, i) <= s.len(),
        next_separator(s, i) < s.len() ==> is_path_separator(s[next_separator(s, i)]),
        forall|k: int| i <= k < next_separator(s, i) ==> !is_path_separator(#[trigger] s[k]),
    decreases s.len() - i,
{
    if i < s.len() && !is_path_separator(s[i]) {
        lemma_next_separator_bounds(s, i + 1);
    }
}

/// From `start` on, a path whose last character is neither a separator nor
/// a dot has at least one component.
proof fn lemma_components_from_nonempty(s: Seq<char>, start: int)
    requires
        0 <= start < s.len(),
        !is_path_separator(s.last()),
        s.last() != '.',
    ensures
        components_from(s, start).len() > 0,
    decreases s.len() - start,
{
    lemma_next_separator_bounds(s, start);
    let end = next_separator(s, start);
    if end < s.len() {
        assert(end != s.len() - 1);
        lemma_components_from_nonempty(s, end + 1);
    } else {
        let p = s.subrange(start, end);
        assert(p.len() > 0);
        assert(p[p.len() - 1] == s.last());
        assert(p != seq!['.']);
    }
}

/// The last part of `s`, from `start` to the end, holds no separator: its
/// only component is that part.
proof fn lemma_last_part(s: Seq<char>, start: int)
    requires
        0 <= start < s.len(),
        forall|k: int| start <= k < s.len() ==> !is_path_separator(#[trigger] s[k]),
        s.subrange(start, s.len() as int) != seq!['.'],
        s.subrange(start, s.len() as int) != seq!['.', '.'],
    ensures
        components_from(s, start) == seq![Component::Normal(s.subrange(start, s.len() as int))],
{
    lemma_next_separator_bounds(s, start);
}

/// A valid entry name ending in neither a separator nor a dot holds no
/// separator.
proof fn lemma_entry_name_has_no_separator(name: Seq<char>)
    requires
        entry_name_error(name) is None,
        name.len() > 0,
        !is_path_separator(name.last()),
        name.last() != '.',
    ensures
        forall|k: int| 0 <= k < name.len() ==> !is_path_separator(#[trigger] name[k]),
{
    lemma_next_separator_bounds(name, 0);
    let end = next_separator(name, 0);
    if end < name.len() {
        assert(!is_absolute_shape(name));
        assert(end > 0);
        assert(end != name.len() - 1);
        lemma_components_from_nonempty(name, end + 1);
        let p = name.subrange(0, end);
        assert(p.len() > 0);
        assert(components(name).len() >= 2);
        assert(false);
    }
}

/// From any part boundary of `x`, the components of `x`, a separator and
/// then `name` end with `name` itself.
proof fn lemma_joined_components_end_with(x: Seq<char>, name: Seq<char>, start: int)
    requires
        0 <= start <= x.len(),
        name.len() > 0,
        forall|k: int| 0 <= k < name.len() ==> !is_path_separator(#[trigger] name[k]),
        name != seq!['.'],
        name != seq!['.', '.'],
    ensures
        components_from(x + seq!['\\'] + name, start).len() > 0,
        components_from(x + seq!['\\'] + name, start).last() == Component::Normal(name),
    decreases x.len() - start,
{
    let s = x + seq!['\\'] + name;
    assert(s[x.len() as int] == '\\');
    assert forall|k: int| x.len() + 1 <= k < s.len() implies !is_path_separator(#[trigger] s[k]) by {
        assert(s[k] == name[k - x.len() - 1]);
    }
    assert(s.subrange((x.len() + 1) as int, s.len() as int) =~= name);
    lemma_last_part(s, (x.len() + 1) as int);
    lemma_next_separator_bounds(s, start);
    let end = next_separator(s, start);
    assert(end <= x.len());
    if end < x.len() {
        lemma_joined_components_end_with(x, name, end + 1);
    }
}

/// An `.flp` entry name joined under a parent normalizes to a path that is
/// itself an `.flp` name: its last component is the entry's name.
pub proof fn lemma_joined_flp_path(parent: Option<Seq<char>>, name: Seq<char>, d: Seq<char>)
    requires
        entry_name_error(name) is None,
        is_flp_spec(name),
        normalize_spec(match parent {
            None => name,
            Some(p) => p + seq!['\\'] + name,
        }) == Ok::<Seq<char>, PathError>(d),
    ensures
        is_flp_spec(d),
{
    let s = match parent {
        None => name,
        Some(p) => p + seq!['\\'] + name,
    };
    assert(name.last() == name[name.len() - 1]);
    lemma_entry_name_has_no_separator(name);
    assert(name != seq!['.']);
    assert(name != seq!['.', '.']);
    match parent {
        None => {
            assert(name.subrange(0, name.len() as int) =~= name);
            lemma_last_part(name, 0);
        },
        Some(p) => {
            lemma_joined_components_end_with(p, name, 0);
        },
    }
    let cs = components(s);
    assert(cs.len() > 0 && cs.last() == Component::Normal(name));
    let ps = cs.map_values(|c: Component| normal_value(c));
    assert(ps.last() == name);
    if ps.len() == 1 {
        assert(d == name);
    } else {
        let head = join_backslash(ps.drop_last()) + seq!['\\'];
        assert(d == head + name);
        assert(d[d.len() - 1] == name[name.len() - 1]);
        assert(d[d.len() - 2] == name[name.len() - 2]);
        assert(d[d.len() - 3] == name[name.len() - 3]);
        assert(d[d.len() - 4] == name[name.len() - 4]);
    }
}

fn is_separator_char(c: char) -> (r: bool)
    ensures
        r == is_path_separator(c),
{
    c == '/' || c == '\\'
}

/// The error of the entry name `chars[from..to]`, as `component_error`.
fn check_component(chars: &Vec<char>, from: usize, to: usize) -> (r: Option<PathError>)
    requires
        from <= to <= chars.len(),
    ensures
        r == component_error(chars@.subrange(from as int, to as int)),
{
    let ghost v = chars@.subrange(from as int, to as int);
    if from == to {
        return Some(PathError::InvalidComponent);
    }
    let mut has_nul = false;
    let mut has_colon = false;
    let mut has_sep = false;
    let mut has_reserved = false;
    let mut has_control = false;
    let mut i = from;
    while i < to
        invariant
            from <= i <= to <= chars.len(),
            v == chars@.subrange(from as int, to as int),
            has_nul == exists|k: int| 0 <= k < i - from && v[k] == '\0',
            has_colon == exists|k: int| 0 <= k < i - from && v[k] == ':',
            has_sep == exists|k: int| 0 <= k < i - from && (v[k] == '/' || v[k] == '\\'),
            has_reserved == exists|k: int| 0 <= k < i - from && is_reserved_char(#[trigger] v[k]),
            has_control == exists|k: int| 0 <= k < i - from && is_control_char(#[trigger] v[k]),
        decreases to - i,
    {
        let c = chars[i];
        let ghost k0 = i - from;
        assert(v[k0] == c);
        if c == '\0' {
            has_nul = true;
        }
        if c == ':' {
            has_colon = true;
        }
        if c == '/' || c == '\\' {
            has_sep = true;
        }
        if c == '*' || c == '?' || c == '<' || c == '>' || c == '"' || c == '|' {
            has_reserved = true;
        }
        let u = c as u32;
        if u <= 0x1f || (0x7f <= u && u <= 0x9f) {
            has_control = true;
        }
        i = i + 1;
    }
    proof {
        assert(v.contains('\0') == has_nul);
        assert(v.contains(':') == has_colon);
        if has_sep {
            let k = choose|k: int| 0 <= k < to - from && (v[k] == '/' || v[k] == '\\');
            assert(v[k] == '/' ==> v.contains('/'));
            assert(v[k] == '\\' ==> v.contains('\\'));
        }
        if v.contains('/') {
            let k = choose|k: int| 0 <= k < v.len() && v[k] == '/';
            assert(has_sep);
        }
        if v.contains('\\') {
            let k = choose|k: int| 0 <= k < v.len() && v[k] == '\\';
            assert(has_sep);
        }
    }
    if has_nul {
        Some(PathError::Nul)
    } else if has_colon {
        Some(PathError::AlternateDataStream)
    } else if has_sep || has_reserved || has_control {
        Some(PathError::InvalidComponent)
    } else {
        None
    }
}

/// Validates one entry name.
pub fn validate_component(value: &str) -> (r: Result<(), PathError>)
    ensures
        match r {
            Ok(()) => component_error(value@) is None,
            Err(e) => component_error(value@) == Some(e),
        },
{
    let chars = chars_of(value);
    assert(chars@.subrange(0, chars@.len() as int) =~= chars@);
    match check_component(&chars, 0, chars.len()) {
        Some(e) => Err(e),
        None => Ok(()),
    }
}

/// The component a scanned `(kind, from, to)` triple stands for: kind 0 is
/// the normal part `s[from..to]`, kind 1 the current directory, kind 2 the
/// parent directory.
pub open spec fn scanned_component(s: Seq<char>, t: (u8, usize, usize)) -> Component {
    if t.0 == 1 {
        Component::CurDir
    } else if t.0 == 2 {
        Component::ParentDir
    } else {
        Component::Normal(s.subrange(t.1 as int, t.2 as int))
    }
}

/// All components of `chars`, in order.
fn list_components(chars: &Vec<char>) -> (r: Vec<(u8, usize, usize)>)
    ensures
        r@.len() == components(chars@).len(),
        forall|k: int| 0 <= k < r@.len() ==> {
            &&& (#[trigger] r@[k]).1 <= r@[k].2 <= chars.len()
            &&& r@[k].0 <= 2
            &&& components(chars@)[k] == scanned_component(chars@, r@[k])
        },
{
    let ghost s = chars@;
    let n = chars.len();
    let mut out: Vec<(u8, usize, usize)> = Vec::new();
    let ghost mut done: Seq<Component> = seq![];
    let mut start: usize = 0;
    proof {
        assert(components(s) =~= done + components_from(s, 0));
    }
    loop
        invariant
            s == chars@,
            n == chars.len(),
            start <= n,
            components(s) == done + components_from(s, start as int),
            out@.len() == done.len(),
            forall|k: int| 0 <= k < out@.len() ==> {
                &&& (#[trigger] out@[k]).1 <= out@[k].2 <= n
                &&& out@[k].0 <= 2
                &&& done[k] == scanned_component(s, out@[k])
            },
        decreases n - start,
    {
        let mut end = start;
        while end < n && !is_separator_char(chars[end])
            invariant
                start <= end <= n,
                n == chars.len(),
                s == chars@,
                next_separator(s, start as int) == next_separator(s, end as int),
            decreases n - end,
        {
            end = end + 1;
        }
        proof {
            lemma_next_separator_bounds(s, start as int);
        }
        assert(next_separator(s, start as int) == end);
        let ghost p = s.subrange(start as int, end as int);
        let ghost head: Seq<Component> = if p.len() == 0 {
            seq![]
        } else if p == seq!['.'] {
            if start == 0 { seq![Component::CurDir] } else { seq![] }
        } else if p == seq!['.', '.'] {
            seq![Component::ParentDir]
        } else {
            seq![Component::Normal(p)]
        };
        let len = end - start;
        let is_dot = len == 1 && chars[start] == '.';
        let is_dotdot = len == 2 && chars[start] == '.' && chars[start + 1] == '.';
        proof {
            if is_dot {
                assert(p =~= seq!['.']);
            }
            if is_dotdot {
                assert(p =~= seq!['.', '.']);
            }
            if len == 1 && p == seq!['.'] {
                assert(p[0] == chars@[start as int]);
            }
            if len == 2 && p == seq!['.', '.'] {
                assert(p[0] == chars@[start as int]);
                assert(p[1] == chars@[start + 1]);
            }
        }
        if len == 0 {
        } else if is_dot {
            if start == 0 {
                out.push((1u8, start, end));
            }
        } else if is_dotdot {
            out.push((2u8, start, end));
        } else {
            out.push((0u8, start, end));
        }
        proof {
            done = done + head;
        }
        if end >= n {
            proof {
                assert(components_from(s, start as int) == head);
                assert(components(s) =~= done);
            }
            return out;
        }
        proof {
            assert(components(s) =~= done + components_from(s, end + 1));
        }
        start = end + 1;
    }
}

/// The components of `chars`, each a range of `chars`, when all of them are
/// valid normal components; otherwise the first error.
fn scan_components(chars: &Vec<char>) -> (r: Result<Vec<(usize, usize)>, PathError>)
    ensures
        match r {
            Ok(ranges) => first_component_error(components(chars@)) is None
                && ranges@.len() == components(chars@).len()
                && forall|k: int| 0 <= k < ranges@.len() ==> {
                    &&& (#[trigger] ranges@[k]).0 <= ranges@[k].1 <= chars.len()
                    &&& components(chars@)[k] == Component::Normal(chars@.subrange(ranges@[k].0 as int, ranges@[k].1 as int))
                },
            Err(e) => first_component_error(components(chars@)) == Some(e),
        },
{
    let ghost cs = components(chars@);
    let list = list_components(chars);
    let mut ranges: Vec<(usize, usize)> = Vec::new();
    let mut k: usize = 0;
    proof {
        assert(cs.subrange(0, 0) =~= Seq::<Component>::empty());
    }
    while k < list.len()
        invariant
            cs == components(chars@),
            list@.len() == cs.len(),
            forall|j: int| 0 <= j < list@.len() ==> {
                &&& (#[trigger] list@[j]).1 <= list@[j].2 <= chars.len()
                &&& list@[j].0 <= 2
                &&& cs[j] == scanned_component(chars@, list@[j])
            },
            k <= list@.len(),
            first_component_error(cs.subrange(0, k as int)) is None,
            ranges@.len() == k,
            forall|j: int| 0 <= j < k ==> {
                &&& (#[trigger] ranges@[j]).0 <= ranges@[j].1 <= chars.len()
                &&& cs[j] == Component::Normal(chars@.subrange(ranges@[j].0 as int, ranges@[j].1 as int))
            },
        decreases list.len() - k,
    {
        let (kind, from, to) = list[k];
        let ghost single = seq![cs[k as int]];
        proof {
            assert(cs.subrange(0, k + 1) =~= cs.subrange(0, k as int) + single);
            assert(cs =~= cs.subrange(0, k as int) + cs.subrange(k as int, cs.len() as int));
            assert(cs.subrange(k as int, cs.len() as int) =~= single + cs.subrange(k + 1, cs.len() as int));
            lemma_first_error_append(cs.subrange(0, k as int), cs.subrange(k as int, cs.len() as int));
            lemma_first_error_append(single, cs.subrange(k + 1, cs.len() as int));
            lemma_first_error_append(cs.subrange(0, k as int), single);
            assert(single.drop_first() =~= Seq::<Component>::empty());
        }
        if kind == 1 {
            return Err(PathError::CurrentComponent);
        }
        if kind == 2 {
            return Err(PathError::ParentTraversal);
        }
        match check_component(chars, from, to) {
            Some(e) => return Err(e),
            None => {},
        }
        proof {
            assert(first_component_error(single.drop_first()) is None);
            assert(first_component_error(single) is None);
        }
        ranges.push((from, to));
        k = k + 1;
    }
    proof {
        assert(cs.subrange(0, cs.len() as int) =~= cs);
    }
    Ok(ranges)
}

/// Validates a directory entry name: exactly one normal component that is
/// itself a valid entry name.
pub fn validate_entry_name(name: &str) -> (r: Result<(), PathError>)
    ensures
        match r {
            Ok(()) => entry_name_error(name@) is None,
            Err(e) => entry_name_error(name@) == Some(e),
        },
{
    let chars = chars_of(name);
    if chars.len() > 0 && is_separator_char(chars[0]) {
        return Err(PathError::InvalidComponent);
    }
    if chars.len() >= 2 && chars[1] == ':' && (('a' <= chars[0] && chars[0] <= 'z') || ('A' <= chars[0] && chars[0] <= 'Z')) {
        return Err(PathError::InvalidComponent);
    }
    let list = list_components(&chars);
    if list.len() != 1 {
        return Err(PathError::InvalidComponent);
    }
    let (kind, from, to) = list[0];
    if kind != 0 {
        return Err(PathError::InvalidComponent);
    }
    match check_component(&chars, from, to) {
        Some(e) => Err(e),
        None => Ok(()),
    }
}

pub open spec fn ascii_lower(c: char) -> char {
    if 'A' <= c && c <= 'Z' { ((c as u32) + 32) as char } else { c }
}

/// A file name with the extension `flp`, in any ASCII case.
pub open spec fn is_flp_spec(name: Seq<char>) -> bool {
    &&& name.len() >= 5
    &&& name[name.len() - 4] == '.'
    &&& ascii_lower(name[name.len() - 3]) == 'f'
    &&& ascii_lower(name[name.len() - 2]) == 'l'
    &&& ascii_lower(name[name.len() - 1]) == 'p'
}

/// A name is an FL Studio project name exactly when it has at least one
/// character before a final `.flp` extension, each of the three letters
/// in either ASCII case independently of the others (`Song.Flp`,
/// `song.fLP` and every other of the eight spellings qualify).
pub proof fn law_flp_extension_ignores_ascii_case(name: Seq<char>)
    ensures
        is_flp_spec(name) <==> {
            &&& name.len() >= 5
            &&& name[name.len() - 4] == '.'
            &&& (name[name.len() - 3] == 'f' || name[name.len() - 3] == 'F')
            &&& (name[name.len() - 2] == 'l' || name[name.len() - 2] == 'L')
            &&& (name[name.len() - 1] == 'p' || name[name.len() - 1] == 'P')
        },
{
}

/// Changing the ASCII case of any one of the extension's letters never
/// changes whether a name is an FL Studio project name.
pub proof fn law_flp_name_keeps_under_one_letter_case_change(name: Seq<char>, k: int)
    requires
        name.len() >= 5,
        name.len() - 3 <= k < name.len(),
        'a' <= name[k] <= 'z' || 'A' <= name[k] <= 'Z',
    ensures
        is_flp_spec(name) == is_flp_spec(name.update(k, if 'a' <= name[k] <= 'z' {
            ((name[k] as u32) - 32) as char
        } else {
            ((name[k] as u32) + 32) as char
        })),
{
}

/// Whether a directory entry name carries the `flp` extension, compared
/// ASCII case-insensitively. A name like `.flp` is a dot file with no
/// extension.
pub fn is_flp_name(name: &str) -> (r: bool)
    ensures
        r == is_flp_spec(name@),
{
    let chars = chars_of(name);
    let n = chars.len();
    if n < 5 {
        return false;
    }
    let a = chars[n - 3];
    let b = chars[n - 2];
    let c = chars[n - 1];
    chars[n - 4] == '.' && (a == 'f' || a == 'F') && (b == 'l' || b == 'L') && (c == 'p' || c == 'P')
}

/// The string of `chars[from..to]` appended to `out`.
fn push_range(out: &mut String, chars: &Vec<char>, from: usize, to: usize)
    requires
        from <= to <= chars.len(),
    ensures
        final(out)@ == old(out)@ + chars@.subrange(from as int, to as int),
{
    let mut i = from;
    while i < to
        invariant
            from <= i <= to <= chars.len(),
            out@ == old(out)@ + chars@.subrange(from as int, i as int),
        decreases to - i,
    {
        push_char(out, chars[i]);
        i = i + 1;
        assert(out@ =~= old(out)@ + chars@.subrange(from as int, i as int));
    }
}

/// Normalize a root-relative path at the boundary.
///
/// The returned display path and locator use `\` separators. No filesystem
/// lookup occurs here.
pub fn normalize_relative_path(relative: &str) -> (r: Result<(DisplayRelativePath, NormalizedLocator), PathError>)
    ensures
        match r {
            Ok((d, l)) => normalize_spec(relative@) == Ok::<Seq<char>, PathError>(d@) && l@ == d@,
            Err(e) => normalize_spec(relative@) == Err::<Seq<char>, PathError>(e),
        },
{
    let chars = chars_of(relative);
    if chars.len() > 0 && is_separator_char(chars[0]) {
        return Err(PathError::Absolute);
    }
    if chars.len() >= 2 && chars[1] == ':' && (('a' <= chars[0] && chars[0] <= 'z') || ('A' <= chars[0] && chars[0] <= 'Z')) {
        return Err(PathError::Absolute);
    }
    let ranges = match scan_components(&chars) {
        Ok(ranges) => ranges,
        Err(e) => return Err(e),
    };
    if ranges.len() == 0 {
        return Err(PathError::Empty);
    }
    let ghost cs = components(chars@);
    let ghost parts = cs.map_values(|c: Component| normal_value(c));
    let mut out = String::new();
    let mut k: usize = 0;
    while k < ranges.len()
        invariant
            k <= ranges@.len(),
            ranges@.len() == cs.len(),
            parts == cs.map_values(|c: Component| normal_value(c)),
            forall|j: int| 0 <= j < ranges@.len() ==> {
                &&& (#[trigger] ranges@[j]).0 <= ranges@[j].1 <= chars.len()
                &&& cs[j] == Component::Normal(chars@.subrange(ranges@[j].0 as int, ranges@[j].1 as int))
            },
            out@ == join_backslash(parts.subrange(0, k as int)),
        decreases ranges.len() - k,
    {
        let (from, to) = ranges[k];
        let ghost before = out@;
        if k > 0 {
            push_char(&mut out, '\\');
        }
        push_range(&mut out, &chars, from, to);
        proof {
            let pk = parts.subrange(0, k + 1);
            assert(pk.drop_last() =~= parts.subrange(0, k as int));
            assert(pk.last() == chars@.subrange(from as int, to as int));
            if k == 0 {
                assert(out@ =~= join_backslash(pk));
            } else {
                assert(out@ =~= join_backslash(pk));
            }
        }
        k = k + 1;
    }
    proof {
        assert(parts.subrange(0, ranges@.len() as int) =~= parts);
    }
    let locator = out.clone();
    Ok((DisplayRelativePath(out), NormalizedLocator(locator)))
}

} // verus!
