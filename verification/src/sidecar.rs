//! The decisions of the sidecar smoke probe: which argument lists it
//! accepts, which mode it runs, what counts as a ping, and the exit code of
//! each result. The probe's process, standard streams and sleeping stay with
//! the program that runs it.
use vstd::prelude::*;

use crate::text::{chars_eq, chars_of};

verus! {

/// What the probe does.
#[derive(Clone, Copy, Debug, PartialEq, Eq, Structural)]
pub enum SidecarMode {
    /// Read one line and answer a ping.
    Respond,
    /// Fail on purpose.
    Fail,
    /// Announce readiness and wait to be terminated.
    Wait,
    /// An unknown mode.
    Invalid,
}

/// The accepted argument list: `--mode <mode> --probe-path <path>` and
/// nothing more, where the probe path holds a space and the character `音`
/// (so it exercises non-ASCII paths with spaces).
pub open spec fn arguments_spec(args: Seq<Seq<char>>) -> Option<(Seq<char>, Seq<char>)> {
    if args.len() == 4 && args[0] == "--mode"@ && args[2] == "--probe-path"@ && args[3].contains(' ')
        && args[3].contains('音') {
        Some((args[1], args[3]))
    } else {
        None
    }
}

pub open spec fn string_views(args: Seq<String>) -> Seq<Seq<char>> {
    args.map_values(|a: String| a@)
}

fn same_text(a: &String, literal: &str) -> (r: bool)
    ensures
        r == (a@ == literal@),
{
    let x = chars_of(a.as_str());
    let y = chars_of(literal);
    chars_eq(&x, &y)
}

fn holds_char(s: &String, c: char) -> (r: bool)
    ensures
        r == s@.contains(c),
{
    let x = chars_of(s.as_str());
    let mut i: usize = 0;
    while i < x.len()
        invariant
            x@ == s@,
            i <= x@.len(),
            forall|k: int| 0 <= k < i ==> x@[k] != c,
        decreases x.len() - i,
    {
        if x[i] == c {
            assert(x@[i as int] == c);
            return true;
        }
        i = i + 1;
    }
    false
}

/// Checks the probe's arguments (after the program name) and returns the
/// mode and the probe path.
pub fn arguments(args: &Vec<String>) -> (r: Result<(String, String), ()>)
    ensures
        match r {
            Ok((mode, path)) => arguments_spec(string_views(args@)) == Some((mode@, path@)),
            Err(()) => arguments_spec(string_views(args@)) is None,
        },
{
    proof {
        reveal_strlit("--mode");
        reveal_strlit("--probe-path");
    }
    if args.len() != 4 {
        return Err(());
    }
    let views = Ghost(string_views(args@));
    assert(views@[0] == args@[0]@ && views@[1] == args@[1]@ && views@[2] == args@[2]@ && views@[3] == args@[3]@);
    if !same_text(&args[0], "--mode") || !same_text(&args[2], "--probe-path") {
        return Err(());
    }
    if !holds_char(&args[3], ' ') || !holds_char(&args[3], '音') {
        return Err(());
    }
    Ok((args[1].clone(), args[3].clone()))
}

pub open spec fn mode_spec(mode: Seq<char>) -> SidecarMode {
    if mode == "respond"@ {
        SidecarMode::Respond
    } else if mode == "fail"@ {
        SidecarMode::Fail
    } else if mode == "wait"@ {
        SidecarMode::Wait
    } else {
        SidecarMode::Invalid
    }
}

/// The mode a mode argument names.
pub fn mode_of(mode: &String) -> (r: SidecarMode)
    ensures
        r == mode_spec(mode@),
{
    if same_text(mode, "respond") {
        SidecarMode::Respond
    } else if same_text(mode, "fail") {
        SidecarMode::Fail
    } else if same_text(mode, "wait") {
        SidecarMode::Wait
    } else {
        SidecarMode::Invalid
    }
}

/// The Unicode `White_Space` characters, as `char::is_whitespace` has them.
pub open spec fn is_white_space(c: char) -> bool {
    let u = c as u32;
    ||| (0x09 <= u && u <= 0x0D)
    ||| u == 0x20
    ||| u == 0x85
    ||| u == 0xA0
    ||| u == 0x1680
    ||| (0x2000 <= u && u <= 0x200A)
    ||| u == 0x2028
    ||| u == 0x2029
    ||| u == 0x202F
    ||| u == 0x205F
    ||| u == 0x3000
}

/// `s` without its trailing white space.
pub open spec fn trim_end_spec(s: Seq<char>) -> Seq<char>
    decreases s.len(),
{
    if s.len() > 0 && is_white_space(s.last()) {
        trim_end_spec(s.drop_last())
    } else {
        s
    }
}

fn white_space(c: char) -> (r: bool)
    ensures
        r == is_white_space(c),
{
    let u = c as u32;
    (0x09 <= u && u <= 0x0D) || u == 0x20 || u == 0x85 || u == 0xA0 || u == 0x1680 || (0x2000 <= u && u <= 0x200A)
        || u == 0x2028 || u == 0x2029 || u == 0x202F || u == 0x205F || u == 0x3000
}

/// Whether a line read from standard input is a ping: `ping` followed by
/// nothing but white space (such as the line break).
pub fn is_ping(line: &String) -> (r: bool)
    ensures
        r == (trim_end_spec(line@) == "ping"@),
{
    proof {
        reveal_strlit("ping");
    }
    let chars = chars_of(line.as_str());
    let mut end = chars.len();
    assert(chars@.subrange(0, end as int) =~= chars@);
    while end > 0 && white_space(chars[end - 1])
        invariant
            end <= chars@.len(),
            chars@ == line@,
            trim_end_spec(chars@) == trim_end_spec(chars@.subrange(0, end as int)),
        decreases end,
    {
        proof {
            let s = chars@.subrange(0, end as int);
            assert(s.drop_last() =~= chars@.subrange(0, end - 1));
        }
        end = end - 1;
    }
    proof {
        assert(chars@.subrange(0, chars@.len() as int) =~= chars@);
        let s = chars@.subrange(0, end as int);
        assert(trim_end_spec(s) == s);
    }
    let ok = end == 4 && chars[0] == 'p' && chars[1] == 'i' && chars[2] == 'n' && chars[3] == 'g';
    proof {
        let s = chars@.subrange(0, end as int);
        if end == 4 {
            assert(s[0] == chars@[0] && s[1] == chars@[1] && s[2] == chars@[2] && s[3] == chars@[3]);
            if ok {
                assert(s =~= "ping"@);
            }
        }
    }
    ok
}

/// Exit codes: success, invalid arguments or mode, invalid input, and the
/// deliberate failure.
pub const EXIT_SUCCESS: u8 = 0;
pub const EXIT_INVALID_ARGUMENTS: u8 = 2;
pub const EXIT_INVALID_INPUT: u8 = 3;
pub const EXIT_CONTROLLED_FAILURE: u8 = 17;

/// The exit code of a mode that ends, given whether a respond run read a
/// ping; `None` for the waiting mode, which never ends by itself.
pub fn exit_code(mode: SidecarMode, pinged: bool) -> (r: Option<u8>)
    ensures
        r == match mode {
            SidecarMode::Respond => Some(if pinged { EXIT_SUCCESS } else { EXIT_INVALID_INPUT }),
            SidecarMode::Fail => Some(EXIT_CONTROLLED_FAILURE),
            SidecarMode::Wait => None,
            SidecarMode::Invalid => Some(EXIT_INVALID_ARGUMENTS),
        },
{
    match mode {
        SidecarMode::Respond => Some(if pinged { EXIT_SUCCESS } else { EXIT_INVALID_INPUT }),
        SidecarMode::Fail => Some(EXIT_CONTROLLED_FAILURE),
        SidecarMode::Wait => None,
        SidecarMode::Invalid => Some(EXIT_INVALID_ARGUMENTS),
    }
}

} // verus!
