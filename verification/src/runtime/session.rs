//! What a play session is started with.
//!
//! The arguments and the environment of a launch follow from the manifest
//! and from what the user asked for. A variable set later takes the place
//! of one of the same name set earlier.

use crate::path::same_bytes;
use vstd::prelude::*;
use vstd::string::StringSliceAdditionalSpecFns;
use vstd::utf8::encode_utf8;

verus! {

/// Whether the bytes `head` stand at the start of `text`.
pub open spec fn starts_with(text: Seq<u8>, head: Seq<u8>) -> bool {
    head.len() <= text.len() && text.subrange(0, head.len() as int) == head
}

/// Whether `arg` chooses a server.
pub open spec fn chooses_server(arg: Seq<char>) -> bool {
    starts_with(encode_utf8(arg), "/server:".spec_bytes())
}

/// Tells whether `arg` chooses a server: it starts with `/server:`.
pub fn is_server_choice(arg: &str) -> (chooses: bool)
    ensures
        chooses == chooses_server(arg@),
{
    let head = "/server:".as_bytes();
    let text = arg.as_bytes();
    if head.len() > text.len() {
        return false;
    }
    let mut start: Vec<u8> = Vec::new();
    let mut i: usize = 0;
    while i < head.len()
        invariant
            i <= head.len(),
            head.len() <= text.len(),
            start@ == text@.subrange(0, i as int),
        decreases head.len() - i,
    {
        start.push(text[i]);
        i = i + 1;
        proof {
            assert(start@ =~= text@.subrange(0, i as int));
        }
    }
    same_bytes(start.as_slice(), head)
}

/// The first of `args` that chooses a server, if one does.
pub open spec fn configured_server(args: Seq<String>) -> Option<Seq<char>>
    decreases args.len(),
{
    if args.len() == 0 {
        None
    } else if chooses_server(args[0]@) {
        Some(args[0]@)
    } else {
        configured_server(args.drop_first())
    }
}

/// The argument that chooses the server of a session: the test server
/// where it was asked for, else what the manifest's entry point chooses,
/// else the main server.
pub open spec fn server_argument_spec(singularity: bool, configured: Option<Seq<String>>) -> Seq<
    char,
> {
    if singularity {
        "/server:singularity"@
    } else {
        match configured {
            Some(args) => match configured_server(args) {
                Some(arg) => arg,
                None => "/server:tranquility"@,
            },
            None => "/server:tranquility"@,
        }
    }
}

/// No argument before position `upto` chooses a server, so the first that
/// does is the first from `upto` on.
proof fn lemma_configured_server_skips(args: Seq<String>, upto: int)
    requires
        0 <= upto <= args.len(),
        forall|k: int| 0 <= k < upto ==> !chooses_server(#[trigger] args[k]@),
    ensures
        configured_server(args) == configured_server(args.skip(upto)),
    decreases upto,
{
    if upto == 0 {
        assert(args.skip(0) =~= args);
    } else {
        lemma_configured_server_skips(args, upto - 1);
        let tail = args.skip(upto - 1);
        assert(tail[0] == args[upto - 1]);
        assert(tail.drop_first() =~= args.skip(upto));
    }
}

/// The argument that chooses the server of a session.
pub fn server_argument(singularity: bool, configured: Option<&Vec<String>>) -> (arg: String)
    ensures
        arg@ == server_argument_spec(
            singularity,
            match configured {
                Some(args) => Some(args@),
                None => None,
            },
        ),
{
    if singularity {
        return String::from_str("/server:singularity");
    }
    match configured {
        None => String::from_str("/server:tranquility"),
        Some(args) => {
            let mut i: usize = 0;
            while i < args.len()
                invariant
                    i <= args.len(),
                    !singularity,
                    configured == Some(args),
                    forall|k: int| 0 <= k < i ==> !chooses_server(#[trigger] args@[k]@),
                decreases args.len() - i,
            {
                if is_server_choice(args[i].as_str()) {
                    let found = args[i].clone();
                    proof {
                        lemma_configured_server_skips(args@, i as int);
                        let rest = args@.skip(i as int);
                        assert(rest.len() > 0);
                        assert(rest[0] == args@[i as int]);
                        assert(configured_server(rest) == Some(args@[i as int]@));
                        assert(found@ == args@[i as int]@);
                    }
                    return found;
                }
                i = i + 1;
            }
            proof {
                lemma_configured_server_skips(args@, args.len() as int);
                assert(args@.skip(args.len() as int) =~= Seq::<String>::empty());
            }
            String::from_str("/server:tranquility")
        },
    }
}

/// The texts of `list`.
pub open spec fn texts(list: Seq<String>) -> Seq<Seq<char>> {
    list.map_values(|t: String| t@)
}

/// The arguments of a session: the server, then the switch to DirectX 12
/// where it was asked for, then what the user added.
pub open spec fn session_arguments_spec(
    singularity: bool,
    dx12: bool,
    configured: Option<Seq<String>>,
    extra: Seq<Seq<char>>,
) -> Seq<Seq<char>> {
    let server = seq![server_argument_spec(singularity, configured)];
    let platform = if dx12 {
        seq!["/triPlatform:dx12"@]
    } else {
        Seq::empty()
    };
    server + platform + extra
}

/// The arguments of a session.
pub fn session_arguments(
    singularity: bool,
    dx12: bool,
    configured: Option<&Vec<String>>,
    extra: Vec<String>,
) -> (args: Vec<String>)
    ensures
        texts(args@) == session_arguments_spec(
            singularity,
            dx12,
            match configured {
                Some(list) => Some(list@),
                None => None,
            },
            texts(extra@),
        ),
{
    let mut args: Vec<String> = Vec::new();
    args.push(server_argument(singularity, configured));
    if dx12 {
        args.push(String::from_str("/triPlatform:dx12"));
    }
    let ghost fixed = args@;
    let mut extra = extra;
    let ghost added = extra@;
    args.append(&mut extra);
    proof {
        assert(texts(fixed + added) =~= texts(fixed) + texts(added));
        assert(texts(fixed) =~= session_arguments_spec(
            singularity,
            dx12,
            match configured {
                Some(list) => Some(list@),
                None => None,
            },
            Seq::empty(),
        ));
    }
    args
}

/// The values of the variables `vars`.
pub open spec fn vars_texts(vars: Seq<(String, String)>) -> Seq<(Seq<char>, Seq<char>)> {
    vars.map_values(|v: (String, String)| (v.0@, v.1@))
}

/// The variables of a session that names none of its own.
pub open spec fn default_variables() -> Seq<(Seq<char>, Seq<char>)> {
    seq![("DXVK_ASYNC"@, "1"@), ("PROTON_NO_ESYNC"@, "1"@), ("PROTON_NO_FSYNC"@, "1"@)]
}

/// What the overlay shows where the user does not say.
pub open spec fn default_overlay() -> Seq<char> {
    "fps,frametime,gpu_stats,gpu_temp,cpu_stats,cpu_temp,ram,vram"@
}

/// The variables of a session, in the order in which they are set: those
/// of the manifest, or the defaults where it names none; then the feature
/// level for DirectX 12 where that was asked for; then the overlay and what
/// it shows where that was asked for.
pub open spec fn session_variables_spec(
    base: Option<Seq<(Seq<char>, Seq<char>)>>,
    dx12: bool,
    hud: bool,
    hud_config: Seq<char>,
) -> Seq<(Seq<char>, Seq<char>)> {
    let start = match base {
        Some(vars) => vars,
        None => default_variables(),
    };
    let level = if dx12 {
        seq![("VKD3D_FEATURE_LEVEL"@, "12_1"@)]
    } else {
        Seq::empty()
    };
    let overlay = if hud {
        seq![
            ("MANGOHUD"@, "1"@),
            (
                "MANGOHUD_CONFIG"@,
                if hud_config.len() > 0 {
                    hud_config
                } else {
                    default_overlay()
                },
            ),
        ]
    } else {
        Seq::empty()
    };
    start + level + overlay
}

fn variable(name: &str, value: &str) -> (var: (String, String))
    ensures
        var.0@ == name@,
        var.1@ == value@,
{
    (String::from_str(name), String::from_str(value))
}

/// The variables of a session.
pub fn session_variables(
    base: Option<Vec<(String, String)>>,
    dx12: bool,
    hud: bool,
    hud_config: &str,
) -> (vars: Vec<(String, String)>)
    ensures
        vars_texts(vars@) == session_variables_spec(
            match base {
                Some(list) => Some(vars_texts(list@)),
                None => None,
            },
            dx12,
            hud,
            hud_config@,
        ),
{
    let mut vars = match base {
        Some(list) => list,
        None => {
            let mut list: Vec<(String, String)> = Vec::new();
            list.push(variable("DXVK_ASYNC", "1"));
            list.push(variable("PROTON_NO_ESYNC", "1"));
            list.push(variable("PROTON_NO_FSYNC", "1"));
            proof {
                assert(vars_texts(list@) =~= default_variables());
            }
            list
        },
    };
    let ghost start = vars_texts(vars@);
    if dx12 {
        vars.push(variable("VKD3D_FEATURE_LEVEL", "12_1"));
    }
    let ghost leveled = vars_texts(vars@);
    proof {
        if dx12 {
            assert(leveled =~= start + seq![("VKD3D_FEATURE_LEVEL"@, "12_1"@)]);
        } else {
            assert(leveled =~= start + Seq::<(Seq<char>, Seq<char>)>::empty());
        }
    }
    if hud {
        vars.push(variable("MANGOHUD", "1"));
        if hud_config.unicode_len() > 0 {
            vars.push(variable("MANGOHUD_CONFIG", hud_config));
        } else {
            vars.push(
                variable(
                    "MANGOHUD_CONFIG",
                    "fps,frametime,gpu_stats,gpu_temp,cpu_stats,cpu_temp,ram,vram",
                ),
            );
        }
        proof {
            let shown = if hud_config@.len() > 0 {
                hud_config@
            } else {
                default_overlay()
            };
            assert(vars_texts(vars@) =~= leveled + seq![
                ("MANGOHUD"@, "1"@),
                ("MANGOHUD_CONFIG"@, shown),
            ]);
        }
    } else {
        proof {
            assert(vars_texts(vars@) =~= leveled + Seq::<(Seq<char>, Seq<char>)>::empty());
        }
    }
    vars
}

/// How long a session took, as it is told to the user.
#[derive(Debug, Clone, Copy, PartialEq, Eq, Structural)]
pub enum SessionLength {
    /// Less than a minute.
    Moments,
    /// Whole minutes, less than an hour.
    Minutes(u64),
    /// Whole hours and the minutes beyond them.
    Hours(u64, u64),
}

/// How a session of `seconds` is told: in hours and minutes from an hour
/// on, in minutes from a minute on.
pub fn session_length(seconds: u64) -> (length: SessionLength)
    ensures
        length == if seconds >= 3600 {
            SessionLength::Hours((seconds / 3600) as u64, ((seconds % 3600) / 60) as u64)
        } else if seconds >= 60 {
            SessionLength::Minutes((seconds / 60) as u64)
        } else {
            SessionLength::Moments
        },
{
    let hours = seconds / 3600;
    let minutes = (seconds % 3600) / 60;
    if hours > 0 {
        SessionLength::Hours(hours, minutes)
    } else if minutes > 0 {
        SessionLength::Minutes(minutes)
    } else {
        SessionLength::Moments
    }
}

/// How old a file is, as it is told to the user: in the largest unit that
/// makes at least one.
#[derive(Debug, Clone, Copy, PartialEq, Eq, Structural)]
pub enum Age {
    Seconds(u64),
    Minutes(u64),
    Hours(u64),
    Days(u64),
}

/// How an age of `seconds` is told.
pub fn age(seconds: u64) -> (told: Age)
    ensures
        told == if seconds < 60 {
            Age::Seconds(seconds)
        } else if seconds < 3600 {
            Age::Minutes((seconds / 60) as u64)
        } else if seconds < 86400 {
            Age::Hours((seconds / 3600) as u64)
        } else {
            Age::Days((seconds / 86400) as u64)
        },
{
    if seconds < 60 {
        Age::Seconds(seconds)
    } else if seconds < 3600 {
        Age::Minutes(seconds / 60)
    } else if seconds < 86400 {
        Age::Hours(seconds / 3600)
    } else {
        Age::Days(seconds / 86400)
    }
}

/// Where the last `wanted` of `total` lines begin.
pub fn tail_start(total: usize, wanted: usize) -> (start: usize)
    ensures
        start == if total > wanted {
            total - wanted
        } else {
            0
        },
{
    if total > wanted {
        total - wanted
    } else {
        0
    }
}

} // verus!
