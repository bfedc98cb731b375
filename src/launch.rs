//! What activating an item does: open its file, or run its command line,
//! split into a program and its arguments; and where the result list starts
//! a new group of items.
use vstd::prelude::*;
use crate::app_info::{AppInfo, ItemType};
use crate::text::{chars_of, contains, contains_chars, string_of, white_space};

verus! {

/// What to do for an activated item.
#[derive(Debug, Clone, PartialEq, Eq)]
pub enum LaunchAction {
    OpenFile(String),
    Run(String),
    Nothing,
}

/// The white-space separated tokens of `s` completed so far, and the token
/// still open at the end.
pub open spec fn ws_split(s: Seq<char>) -> (Seq<Seq<char>>, Seq<char>)
    decreases s.len(),
{
    if s.len() == 0 {
        (seq![], seq![])
    } else {
        let (d, c) = ws_split(s.drop_last());
        if white_space(s.last()) {
            (if c.len() > 0 { d.push(c) } else { d }, seq![])
        } else {
            (d, c.push(s.last()))
        }
    }
}

/// The white-space separated tokens of `s`, in order.
pub open spec fn ws_tokens(s: Seq<char>) -> Seq<Seq<char>> {
    let (d, c) = ws_split(s);
    if c.len() > 0 {
        d.push(c)
    } else {
        d
    }
}

/// The program and arguments of a command line: a line that mentions
/// `pkexec` runs `pkexec` with every token after the first; any other runs
/// its first token with the rest. None for a line without tokens that does
/// not mention `pkexec`.
pub open spec fn argv_of(exec: Seq<char>) -> Option<(Seq<char>, Seq<Seq<char>>)> {
    let ts = ws_tokens(exec);
    if contains(exec, "pkexec"@) {
        Some(("pkexec"@, if ts.len() > 0 { ts.skip(1) } else { ts }))
    } else if ts.len() == 0 {
        None
    } else {
        Some((ts[0], ts.skip(1)))
    }
}

/// The white-space separated tokens of a command line.
pub fn split_tokens(s: &Vec<char>) -> (r: Vec<String>)
    ensures
        r.deep_view() == ws_tokens(s@),
{
    let mut out: Vec<String> = Vec::new();
    let mut cur: Vec<char> = Vec::new();
    let mut i: usize = 0;
    while i < s.len()
        invariant
            i <= s@.len(),
            (out.deep_view(), cur@) == ws_split(s@.take(i as int)),
        decreases s@.len() - i,
    {
        assert(s@.take(i + 1 as int).drop_last() =~= s@.take(i as int));
        if s[i].is_whitespace() {
            if cur.len() > 0 {
                let piece = string_of(&cur);
                out.push(piece);
                assert(out.deep_view() =~= ws_split(s@.take(i as int)).0.push(cur@));
            }
            cur = Vec::new();
        } else {
            cur.push(s[i]);
        }
        i = i + 1;
    }
    assert(s@.take(s@.len() as int) =~= s@);
    if cur.len() > 0 {
        let piece = string_of(&cur);
        out.push(piece);
        assert(out.deep_view() =~= ws_split(s@).0.push(cur@));
    }
    out
}

/// The program to start and its arguments for a command line.
pub fn launch_argv(exec: &str) -> (r: Option<(String, Vec<String>)>)
    ensures
        match r {
            Some((p, args)) => argv_of(exec@) == Some((p@, args.deep_view())),
            None => argv_of(exec@) is None,
        },
{
    let s = chars_of(exec);
    let tokens = split_tokens(&s);
    let mut args: Vec<String> = Vec::new();
    if tokens.len() > 0 {
        let mut i: usize = 1;
        assert(args.deep_view() =~= tokens.deep_view().subrange(1, 1));
        while i < tokens.len()
            invariant
                1 <= i <= tokens@.len(),
                args.deep_view() == tokens.deep_view().subrange(1, i as int),
            decreases tokens@.len() - i,
        {
            let ghost before = args.deep_view();
            args.push(tokens[i].clone());
            assert(args.deep_view() =~= before.push(tokens@[i as int]@));
            assert(args.deep_view() =~= tokens.deep_view().subrange(1, i + 1 as int));
            i = i + 1;
        }
        assert(args.deep_view() =~= tokens.deep_view().skip(1));
    }
    if contains_chars(&s, &chars_of("pkexec")) {
        if tokens.len() > 0 {
            Some(("pkexec".to_owned(), args))
        } else {
            Some(("pkexec".to_owned(), tokens))
        }
    } else if tokens.len() == 0 {
        None
    } else {
        Some((tokens[0].clone(), args))
    }
}

/// What activating an item does: a recent file opens its path (nothing
/// without one); an application or command runs its command line.
pub fn launch_action(item: &AppInfo) -> (r: LaunchAction)
    ensures
        item@.item_type == ItemType::RecentFile ==> match item@.file_path {
            Some(p) => (r matches LaunchAction::OpenFile(q) && q@ == p),
            None => r matches LaunchAction::Nothing,
        },
        item@.item_type != ItemType::RecentFile ==> (r matches LaunchAction::Run(c)
            && c@ == item@.exec_command),
{
    match item.item_type {
        ItemType::RecentFile => match &item.file_path {
            Some(p) => LaunchAction::OpenFile(p.clone()),
            None => LaunchAction::Nothing,
        },
        _ => LaunchAction::Run(item.exec_command.clone()),
    }
}

/// For each result, whether it starts a new group: its kind differs from
/// that of the result before it.
pub fn section_starts(items: &Vec<AppInfo>) -> (r: Vec<bool>)
    ensures
        r@.len() == items@.len(),
        forall|i: int|
            0 <= i < r@.len() ==> #[trigger] r@[i] == (i > 0 && items@[i].item_type != items@[i
                - 1].item_type),
{
    let mut out: Vec<bool> = Vec::new();
    let mut i: usize = 0;
    while i < items.len()
        invariant
            i <= items@.len(),
            out@.len() == i,
            forall|k: int|
                0 <= k < i ==> #[trigger] out@[k] == (k > 0 && items@[k].item_type != items@[k
                    - 1].item_type),
        decreases items@.len() - i,
    {
        let starts = i > 0 && items[i].item_type != items[i - 1].item_type;
        out.push(starts);
        i = i + 1;
    }
    out
}

/// The row selected after an arrow key in a list of `count` rows: Down
/// moves to the next row, or to the first where none is selected; Up moves
/// to the previous row. At either end the selection stays.
pub fn next_selection(selected: Option<usize>, count: usize, down: bool) -> (r: Option<usize>)
    ensures
        r == (match selected {
            Some(i) => if down {
                if i + 1 < count {
                    Some((i + 1) as usize)
                } else {
                    Some(i)
                }
            } else if i > 0 {
                Some((i - 1) as usize)
            } else {
                Some(i)
            },
            None => if down && count > 0 {
                Some(0usize)
            } else {
                None
            },
        }),
{
    match selected {
        Some(i) => if down {
            if count > 0 && i < count - 1 {
                Some(i + 1)
            } else {
                Some(i)
            }
        } else if i > 0 {
            Some(i - 1)
        } else {
            Some(i)
        },
        None => if down && count > 0 {
            Some(0)
        } else {
            None
        },
    }
}

/// Half of `d`, rounded toward zero, as integer division does.
pub open spec fn half_toward_zero(d: int) -> int {
    if d >= 0 {
        d / 2
    } else {
        -((-d) / 2)
    }
}

/// The coordinate that centers a window of size `size` on an area that
/// starts at `origin` and spans `extent`.
pub fn centered_coordinate(origin: i32, extent: i32, size: i32) -> (r: i32)
    requires
        i32::MIN <= origin + half_toward_zero(extent - size) <= i32::MAX,
    ensures
        r == origin + half_toward_zero(extent - size),
{
    let d: i64 = extent as i64 - size as i64;
    let half: i64 = if d >= 0 {
        d / 2
    } else {
        -((-d) / 2)
    };
    (origin as i64 + half) as i32
}

} // verus!
