//! Command-line configuration of the feed.
use vstd::prelude::*;

verus! {

/// Which feed to run.
#[derive(Clone, Copy, Debug, PartialEq, Eq, Structural)]
pub enum Event {
    Workspace,
    ActiveWorkspace,
    Submap,
    Invalid,
}

/// The feed to run and the name of the variable that holds the persistent
/// template (empty for none).
#[derive(Debug)]
pub struct Config {
    pub event: Event,
    pub ewwvar: String,
}

/// An option: an argument that starts with `--`.
pub open spec fn is_option(a: Seq<char>) -> bool {
    a.len() >= 2 && a[0] == '-' && a[1] == '-'
}

/// An argument that starts with `--eww=`.
pub open spec fn is_eww_option(a: Seq<char>) -> bool {
    a.len() >= 6 && a.subrange(0, 6) == "--eww="@
}

/// The first argument of `s` that is not an option.
pub open spec fn first_plain(s: Seq<Seq<char>>) -> Option<Seq<char>>
    decreases s.len(),
{
    if s.len() == 0 {
        None
    } else if !is_option(s[0]) {
        Some(s[0])
    } else {
        first_plain(s.drop_first())
    }
}

/// The value of the last `--eww=` option of `s`.
pub open spec fn last_eww(s: Seq<Seq<char>>) -> Option<Seq<char>>
    decreases s.len(),
{
    if s.len() == 0 {
        None
    } else if is_eww_option(s.last()) {
        Some(s.last().subrange(6, s.last().len() as int))
    } else {
        last_eww(s.drop_last())
    }
}

/// The feed that a mode argument names.
pub open spec fn event_named(a: Seq<char>) -> Event {
    if a == "workspace"@ || a == "workspaces"@ {
        Event::Workspace
    } else if a == "active-workspace"@ {
        Event::ActiveWorkspace
    } else if a == "submap"@ {
        Event::Submap
    } else {
        Event::Invalid
    }
}

/// The arguments after the program name.
pub open spec fn after_program(args: Seq<Seq<char>>) -> Seq<Seq<char>> {
    if args.len() == 0 {
        args
    } else {
        args.drop_first()
    }
}

/// The feed chosen by the command line: the first argument that is not an
/// option names it, and `workspace` is the default.
pub open spec fn event_of(args: Seq<Seq<char>>) -> Event {
    match first_plain(after_program(args)) {
        Some(a) => event_named(a),
        None => Event::Workspace,
    }
}

/// The template variable chosen by the command line: the value of the last
/// `--eww=` option, or empty.
pub open spec fn ewwvar_of(args: Seq<Seq<char>>) -> Seq<char> {
    match last_eww(after_program(args)) {
        Some(v) => v,
        None => Seq::empty(),
    }
}

/// The views of a list of arguments.
pub open spec fn arg_views(args: Seq<String>) -> Seq<Seq<char>> {
    args.map_values(|s: String| s@)
}

fn is_option_exec(a: &String) -> (r: bool)
    ensures
        r == is_option(a@),
{
    let s = a.as_str();
    s.unicode_len() >= 2 && s.get_char(0) == '-' && s.get_char(1) == '-'
}

fn eww_value(a: &String) -> (r: Option<String>)
    ensures
        is_eww_option(a@) ==> (r matches Some(v) && v@ == a@.subrange(6, a@.len() as int)),
        !is_eww_option(a@) ==> r is None,
{
    let s = a.as_str();
    let n = s.unicode_len();
    if n < 6 {
        return None;
    }
    let head = String::from_str(s.substring_char(0, 6));
    if head == String::from_str("--eww=") {
        Some(String::from_str(s.substring_char(6, n)))
    } else {
        None
    }
}

fn mode_of(a: &String) -> (r: Event)
    ensures
        r == event_named(a@),
{
    if *a == String::from_str("workspace") || *a == String::from_str("workspaces") {
        Event::Workspace
    } else if *a == String::from_str("active-workspace") {
        Event::ActiveWorkspace
    } else if *a == String::from_str("submap") {
        Event::Submap
    } else {
        Event::Invalid
    }
}

impl Config {
    /// Reads the command line (program name first): the feed and the
    /// template variable. Every command line is accepted; an unknown mode
    /// gives `Event::Invalid`.
    pub fn build(args: &Vec<String>) -> (r: Result<Config, &'static str>)
        ensures
            r matches Ok(c) && c.event == event_of(arg_views(args@)) && c.ewwvar@ == ewwvar_of(
                arg_views(args@),
            ),
    {
        let ghost all = arg_views(args@);
        let ghost rest = after_program(all);
        let n = args.len();
        let mut event = Event::Workspace;
        let mut found = false;
        let mut ewwvar = String::new();
        let mut i: usize = 1;
        if n == 0 {
            i = 0;
        }
        proof {
            if n > 0 {
                assert(all.subrange(1, n as int) =~= rest);
            } else {
                assert(all.subrange(0, 0) =~= rest);
            }
        }
        let ghost start = i as int;
        let ghost mut chosen: Seq<char> = Seq::empty();
        while i < n
            invariant
                all == arg_views(args@),
                rest == after_program(all),
                n == args@.len(),
                0 <= start <= i <= n,
                rest == all.subrange(start, n as int),
                found ==> first_plain(rest) == Some(chosen),
                found ==> event == event_named(chosen),
                !found ==> first_plain(rest) == first_plain(all.subrange(i as int, n as int)),
                !found ==> event == Event::Workspace,
                ewwvar@ == match last_eww(all.subrange(start, i as int)) {
                    Some(v) => v,
                    None => Seq::empty(),
                },
            decreases n - i,
        {
            let a = &args[i];
            assert(all[i as int] == a@);
            let ghost pre = all.subrange(start, i + 1);
            assert(pre.drop_last() =~= all.subrange(start, i as int));
            assert(all.subrange(i as int, n as int).drop_first() =~= all.subrange(i + 1, n as int));
            if !found && !is_option_exec(a) {
                event = mode_of(a);
                found = true;
                proof {
                    chosen = a@;
                }
            }
            match eww_value(a) {
                Some(v) => {
                    ewwvar = v;
                },
                None => {},
            }
            i = i + 1;
        }
        Ok(Config { event, ewwvar })
    }
}

} // verus!
