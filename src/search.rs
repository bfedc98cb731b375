//! Query classification and the filter-and-rank pass that turns a query
//! into the ordered, capped result list.
use vstd::prelude::*;
use crate::app_info::{AppInfo, AppInfoView, ItemType, items_view};
use crate::catalog::{Catalog, catalog_wf, seq_lt};
use crate::text::{
    chars_of, contains, contains_chars, lower_of, lowercase, starts_with, starts_with_lit,
    string_of_range,
};

verus! {

/// The words that mark a query as a shell command when it starts with one.
pub open spec fn command_prefixes() -> Seq<Seq<char>> {
    seq!["sudo"@, "cd"@, "ls"@, "cat"@, "grep"@, "find"@, "ps"@, "kill"@, "git"@]
}

/// A non-empty query is a command when it starts with `/` or `./`, holds a
/// space, or starts with one of the command prefixes.
pub open spec fn is_command_query(q: Seq<char>) -> bool {
    q.len() > 0 && (starts_with(q, "/"@) || starts_with(q, "./"@) || contains(q, " "@) || exists|
        k: int,
    |
        0 <= k < command_prefixes().len() && starts_with(q, #[trigger] command_prefixes()[k]))
}

/// The command that a command query runs: without a leading `/` or `./`.
pub open spec fn effective_command(q: Seq<char>) -> Seq<char> {
    if starts_with(q, "/"@) {
        q.skip("/"@.len() as int)
    } else if starts_with(q, "./"@) {
        q.skip("./"@.len() as int)
    } else {
        q
    }
}

/// The shell invocation of a command: elevated when it starts with `sudo`.
pub open spec fn shell_invocation(c: Seq<char>) -> Seq<char> {
    if starts_with(c, "sudo"@) {
        "pkexec sh -c '"@ + c + "'"@
    } else {
        "sh -c '"@ + c + "'"@
    }
}

/// The command item that a query synthesizes, if it is a command query.
pub open spec fn command_item_of(q: Seq<char>) -> Option<AppInfoView> {
    if is_command_query(q) {
        let c = effective_command(q);
        Some(
            AppInfoView {
                name: "💻 Run: "@ + c,
                description: "Execute command in terminal"@,
                exec_command: shell_invocation(c),
                icon: Some("utilities-terminal"@),
                categories: seq!["Command"@],
                item_type: ItemType::Command,
                file_path: None,
            },
        )
    } else {
        None
    }
}

/// An application matches a query held in its lower-case form when the
/// query is empty or a substring of its lower-cased name, description or
/// one of its categories.
pub open spec fn app_matches(a: AppInfoView, q: Seq<char>) -> bool {
    q.len() == 0 || contains(lower_of(a.name), q) || contains(lower_of(a.description), q) || exists|
        k: int,
    | 0 <= k < a.categories.len() && contains(lower_of(#[trigger] a.categories[k]), q)
}

/// A recent file matches by its name and description alone.
pub open spec fn file_matches(a: AppInfoView, q: Seq<char>) -> bool {
    q.len() == 0 || contains(lower_of(a.name), q) || contains(lower_of(a.description), q)
}

pub open spec fn matching_apps(s: Seq<AppInfoView>, q: Seq<char>) -> Seq<AppInfoView>
    decreases s.len(),
{
    if s.len() == 0 {
        seq![]
    } else if app_matches(s.last(), q) {
        matching_apps(s.drop_last(), q).push(s.last())
    } else {
        matching_apps(s.drop_last(), q)
    }
}

pub open spec fn matching_files(s: Seq<AppInfoView>, q: Seq<char>) -> Seq<AppInfoView>
    decreases s.len(),
{
    if s.len() == 0 {
        seq![]
    } else if file_matches(s.last(), q) {
        matching_files(s.drop_last(), q).push(s.last())
    } else {
        matching_files(s.drop_last(), q)
    }
}

/// The result list: the command item if any, the matching applications in
/// catalog (name) order, the matching recent files in their order if they
/// are enabled; cut to `max_results`.
pub open spec fn results(
    apps: Seq<AppInfoView>,
    recent: Seq<AppInfoView>,
    q: Seq<char>,
    max_results: nat,
    recent_enabled: bool,
) -> Seq<AppInfoView> {
    let cmd: Seq<AppInfoView> = match command_item_of(q) {
        Some(x) => seq![x],
        None => seq![],
    };
    let files: Seq<AppInfoView> = if recent_enabled {
        matching_files(recent, q)
    } else {
        seq![]
    };
    let all = cmd + matching_apps(apps, q) + files;
    all.take(if all.len() < max_results {
        all.len() as int
    } else {
        max_results as int
    })
}

fn skip_chars(v: &Vec<char>, n: usize) -> (r: String)
    requires
        n <= v@.len(),
    ensures
        r@ == v@.skip(n as int),
{
    let r = string_of_range(v, n, v.len());
    assert(v@.subrange(n as int, v@.len() as int) =~= v@.skip(n as int));
    r
}

/// The command item for a query (already in lower case), if the query
/// denotes a shell command; none for a search.
pub fn classify_query(query: &str) -> (r: Option<AppInfo>)
    ensures
        match r {
            Some(a) => command_item_of(query@) == Some(a@),
            None => command_item_of(query@) is None,
        },
{
    let q = chars_of(query);
    if q.len() == 0 {
        return None;
    }
    let space = chars_of(" ");
    let by_prefix = starts_with_lit(&q, "sudo") || starts_with_lit(&q, "cd") || starts_with_lit(
        &q,
        "ls",
    ) || starts_with_lit(&q, "cat") || starts_with_lit(&q, "grep") || starts_with_lit(&q, "find")
        || starts_with_lit(&q, "ps") || starts_with_lit(&q, "kill") || starts_with_lit(&q, "git");
    proof {
        let ps = command_prefixes();
        if by_prefix {
            if starts_with(q@, "sudo"@) {
                assert(starts_with(q@, ps[0]));
            } else if starts_with(q@, "cd"@) {
                assert(starts_with(q@, ps[1]));
            } else if starts_with(q@, "ls"@) {
                assert(starts_with(q@, ps[2]));
            } else if starts_with(q@, "cat"@) {
                assert(starts_with(q@, ps[3]));
            } else if starts_with(q@, "grep"@) {
                assert(starts_with(q@, ps[4]));
            } else if starts_with(q@, "find"@) {
                assert(starts_with(q@, ps[5]));
            } else if starts_with(q@, "ps"@) {
                assert(starts_with(q@, ps[6]));
            } else if starts_with(q@, "kill"@) {
                assert(starts_with(q@, ps[7]));
            } else {
                assert(starts_with(q@, ps[8]));
            }
        } else {
            assert forall|k: int| 0 <= k < ps.len() implies !starts_with(q@, #[trigger] ps[k]) by {
                if k == 0 {
                } else if k == 1 {
                } else if k == 2 {
                } else if k == 3 {
                } else if k == 4 {
                } else if k == 5 {
                } else if k == 6 {
                } else if k == 7 {
                } else {
                    assert(k == 8);
                }
            }
        }
    }
    let slash = starts_with_lit(&q, "/");
    let dot_slash = starts_with_lit(&q, "./");
    if !(slash || dot_slash || contains_chars(&q, &space) || by_prefix) {
        return None;
    }
    let command = if slash {
        skip_chars(&q, "/".unicode_len())
    } else if dot_slash {
        skip_chars(&q, "./".unicode_len())
    } else {
        skip_chars(&q, 0)
    };
    proof {
        if !slash && !dot_slash {
            assert(q@.skip(0) =~= q@);
        }
    }
    let c = chars_of(command.as_str());
    let mut exec_command = if starts_with_lit(&c, "sudo") {
        "pkexec sh -c '".to_owned()
    } else {
        "sh -c '".to_owned()
    };
    exec_command.append(command.as_str());
    exec_command.append("'");
    let mut name = "💻 Run: ".to_owned();
    name.append(command.as_str());
    let mut categories: Vec<String> = Vec::new();
    categories.push("Command".to_owned());
    let item = AppInfo {
        name,
        description: "Execute command in terminal".to_owned(),
        exec_command,
        icon: Some("utilities-terminal".to_owned()),
        categories,
        item_type: ItemType::Command,
        file_path: None,
    };
    assert(item.categories.deep_view() =~= seq!["Command"@]);
    Some(item)
}

/// Whether the lower-cased text holds the query.
fn lowered_contains(text: &String, q: &Vec<char>) -> (r: bool)
    ensures
        r == contains(lower_of(text@), q@),
{
    let lowered = lowercase(text.as_str());
    contains_chars(&chars_of(lowered.as_str()), q)
}

/// Whether an application matches the query, by name, description or
/// category.
pub fn app_matches_query(a: &AppInfo, query: &str) -> (r: bool)
    ensures
        r == app_matches(a@, query@),
{
    let q = chars_of(query);
    if q.len() == 0 {
        return true;
    }
    if lowered_contains(&a.name, &q) || lowered_contains(&a.description, &q) {
        return true;
    }
    let mut k: usize = 0;
    while k < a.categories.len()
        invariant
            k <= a.categories@.len(),
            q@ == query@,
            forall|j: int| 0 <= j < k ==> !contains(lower_of(#[trigger] a@.categories[j]), q@),
        decreases a.categories@.len() - k,
    {
        if lowered_contains(&a.categories[k], &q) {
            assert(a@.categories[k as int] == a.categories@[k as int]@);
            return true;
        }
        assert(a@.categories[k as int] == a.categories@[k as int]@);
        k = k + 1;
    }
    false
}

/// Whether a recent file matches the query, by name or description.
pub fn file_matches_query(a: &AppInfo, query: &str) -> (r: bool)
    ensures
        r == file_matches(a@, query@),
{
    let q = chars_of(query);
    q.len() == 0 || lowered_contains(&a.name, &q) || lowered_contains(&a.description, &q)
}

/// The result list for a query (already in lower case): the command item
/// if the query denotes one, then the catalog's matching applications in
/// name order, then the matching recent files in their order when recent
/// files are enabled; at most `max_results` items.
pub fn rank_results(
    catalog: &Catalog,
    recent: &Vec<AppInfo>,
    query: &str,
    max_results: usize,
    recent_enabled: bool,
) -> (r: Vec<AppInfo>)
    ensures
        items_view(r@) == results(
            catalog@,
            items_view(recent@),
            query@,
            max_results as nat,
            recent_enabled,
        ),
{
    let mut out: Vec<AppInfo> = Vec::new();
    match classify_query(query) {
        Some(cmd) => {
            out.push(cmd);
        },
        None => {},
    }
    let ghost cmd_part = items_view(out@);
    let ghost apps = catalog@;
    let mut i: usize = 0;
    assert(cmd_part + matching_apps(apps.take(0), query@) =~= cmd_part);
    while i < catalog.len()
        invariant
            i <= apps.len(),
            apps == catalog@,
            items_view(out@) == cmd_part + matching_apps(apps.take(i as int), query@),
        decreases apps.len() - i,
    {
        let a = catalog.get(i);
        assert(apps.take(i + 1 as int).drop_last() =~= apps.take(i as int));
        if app_matches_query(a, query) {
            let ghost before = items_view(out@);
            out.push(a.copied());
            assert(items_view(out@) =~= before.push(a@));
        }
        i = i + 1;
    }
    assert(apps.take(apps.len() as int) =~= apps);
    let ghost app_part = items_view(out@);
    let ghost rs = items_view(recent@);
    if recent_enabled {
        let mut j: usize = 0;
        assert(app_part + matching_files(rs.take(0), query@) =~= app_part);
        while j < recent.len()
            invariant
                j <= recent@.len(),
                rs == items_view(recent@),
                items_view(out@) == app_part + matching_files(rs.take(j as int), query@),
            decreases recent@.len() - j,
        {
            assert(rs.take(j + 1 as int).drop_last() =~= rs.take(j as int));
            assert(rs[j as int] == recent@[j as int]@);
            if file_matches_query(&recent[j], query) {
                let ghost before = items_view(out@);
                out.push(recent[j].copied());
                assert(items_view(out@) =~= before.push(recent@[j as int]@));
            }
            j = j + 1;
        }
        assert(rs.take(rs.len() as int) =~= rs);
    } else {
        assert(app_part + Seq::<AppInfoView>::empty() =~= app_part);
    }
    let ghost all = items_view(out@);
    out.truncate(max_results);
    assert(items_view(out@) =~= all.take(
        if all.len() < max_results {
            all.len() as int
        } else {
            max_results as int
        },
    ));
    out
}

proof fn lemma_empty_query_keeps_all(s: Seq<AppInfoView>)
    ensures
        matching_apps(s, seq![]) == s,
        matching_files(s, seq![]) == s,
    decreases s.len(),
{
    if s.len() > 0 {
        lemma_empty_query_keeps_all(s.drop_last());
        assert(s.drop_last().push(s.last()) =~= s);
    }
}

/// The empty query lists every application in ascending name order, then
/// every recent file in its order if they are enabled, cut to
/// `max_results`, and no command item.
pub proof fn lemma_empty_query_lists_everything(
    apps: Seq<AppInfoView>,
    recent: Seq<AppInfoView>,
    max_results: nat,
    recent_enabled: bool,
)
    requires
        catalog_wf(apps),
    ensures
        command_item_of(seq![]) is None,
        ({
            let all = apps + if recent_enabled {
                recent
            } else {
                seq![]
            };
            results(apps, recent, seq![], max_results, recent_enabled) == all.take(
                if all.len() < max_results {
                    all.len() as int
                } else {
                    max_results as int
                },
            )
        }),
        forall|i: int, j: int|
            0 <= i < j < apps.len() ==> seq_lt(#[trigger] apps[i].name, #[trigger] apps[j].name),
{
    lemma_empty_query_keeps_all(apps);
    lemma_empty_query_keeps_all(recent);
    let cmd: Seq<AppInfoView> = seq![];
    assert(cmd + apps =~= apps);
}

proof fn lemma_matching_apps_match(s: Seq<AppInfoView>, q: Seq<char>)
    ensures
        forall|k: int|
            0 <= k < matching_apps(s, q).len() ==> app_matches(#[trigger] matching_apps(s, q)[k], q)
                && exists|j: int| 0 <= j < s.len() && s[j] == matching_apps(s, q)[k],
    decreases s.len(),
{
    if s.len() > 0 {
        lemma_matching_apps_match(s.drop_last(), q);
        let prev = matching_apps(s.drop_last(), q);
        assert forall|k: int| 0 <= k < matching_apps(s, q).len() implies app_matches(
            #[trigger] matching_apps(s, q)[k],
            q,
        ) && exists|j: int| 0 <= j < s.len() && s[j] == matching_apps(s, q)[k] by {
            if k < prev.len() {
                assert(matching_apps(s, q)[k] == prev[k]);
                let j = choose|j: int| 0 <= j < s.drop_last().len() && s.drop_last()[j] == prev[k];
                assert(s[j] == s.drop_last()[j]);
            } else {
                assert(matching_apps(s, q)[k] == s.last());
                assert(s[s.len() - 1] == s.last());
            }
        }
    }
}

proof fn lemma_matching_files_match(s: Seq<AppInfoView>, q: Seq<char>)
    ensures
        forall|k: int|
            0 <= k < matching_files(s, q).len() ==> file_matches(
                #[trigger] matching_files(s, q)[k],
                q,
            ),
    decreases s.len(),
{
    if s.len() > 0 {
        lemma_matching_files_match(s.drop_last(), q);
        let prev = matching_files(s.drop_last(), q);
        assert forall|k: int| 0 <= k < matching_files(s, q).len() implies file_matches(
            #[trigger] matching_files(s, q)[k],
            q,
        ) by {
            if k < prev.len() {
                assert(matching_files(s, q)[k] == prev[k]);
            }
        }
    }
}

/// For a non-empty query every application in the result holds the query
/// in its lower-cased name, description or a category, and every recent
/// file in its lower-cased name or description.
pub proof fn lemma_results_match_query(
    apps: Seq<AppInfoView>,
    recent: Seq<AppInfoView>,
    q: Seq<char>,
    max_results: nat,
    recent_enabled: bool,
)
    requires
        catalog_wf(apps),
        q.len() > 0,
    ensures
        forall|i: int|
            0 <= i < results(apps, recent, q, max_results, recent_enabled).len() ==> {
                let x = #[trigger] results(apps, recent, q, max_results, recent_enabled)[i];
                &&& x.item_type == ItemType::Application ==> app_matches(x, q)
                &&& x.item_type == ItemType::RecentFile ==> file_matches(x, q)
            },
{
    lemma_matching_apps_match(apps, q);
    lemma_matching_files_match(recent, q);
    let cmd: Seq<AppInfoView> = match command_item_of(q) {
        Some(x) => seq![x],
        None => seq![],
    };
    let ma = matching_apps(apps, q);
    let files: Seq<AppInfoView> = if recent_enabled {
        matching_files(recent, q)
    } else {
        seq![]
    };
    let all = cmd + ma + files;
    let res = results(apps, recent, q, max_results, recent_enabled);
    assert forall|i: int| 0 <= i < res.len() implies {
        let x = #[trigger] res[i];
        &&& x.item_type == ItemType::Application ==> app_matches(x, q)
        &&& x.item_type == ItemType::RecentFile ==> file_matches(x, q)
    } by {
        assert(res[i] == all[i]);
        if i < cmd.len() {
            assert(all[i] == cmd[i]);
        } else if i < cmd.len() + ma.len() {
            assert(all[i] == ma[i - cmd.len()]);
            let j = choose|j: int| 0 <= j < apps.len() && apps[j] == ma[i - cmd.len()];
            assert(apps[j].item_type == ItemType::Application);
        } else {
            assert(all[i] == files[i - cmd.len() - ma.len()]);
        }
    }
}

proof fn lemma_matching_files_from(s: Seq<AppInfoView>, q: Seq<char>)
    ensures
        forall|k: int|
            0 <= k < matching_files(s, q).len() ==> exists|j: int|
                0 <= j < s.len() && s[j] == #[trigger] matching_files(s, q)[k],
    decreases s.len(),
{
    if s.len() > 0 {
        lemma_matching_files_from(s.drop_last(), q);
        let prev = matching_files(s.drop_last(), q);
        assert forall|k: int| 0 <= k < matching_files(s, q).len() implies exists|j: int|
            0 <= j < s.len() && s[j] == #[trigger] matching_files(s, q)[k] by {
            if k < prev.len() {
                assert(matching_files(s, q)[k] == prev[k]);
                let j = choose|j: int| 0 <= j < s.drop_last().len() && s.drop_last()[j] == prev[k];
                assert(s[j] == s.drop_last()[j]);
            } else {
                assert(matching_files(s, q)[k] == s.last());
                assert(s[s.len() - 1] == s.last());
            }
        }
    }
}

/// The place of a kind in the result list: command, applications, files.
pub open spec fn kind_rank(k: ItemType) -> int {
    match k {
        ItemType::Command => 0,
        ItemType::Application => 1,
        ItemType::RecentFile => 2,
    }
}

/// The three kinds come in contiguous groups in a fixed order: the command
/// item, then applications, then recent files, where the recent list holds
/// recent files only.
pub proof fn lemma_results_grouped_by_kind(
    apps: Seq<AppInfoView>,
    recent: Seq<AppInfoView>,
    q: Seq<char>,
    max_results: nat,
    recent_enabled: bool,
)
    requires
        catalog_wf(apps),
        forall|k: int| 0 <= k < recent.len() ==> (#[trigger] recent[k]).item_type
            == ItemType::RecentFile,
    ensures
        ({
            let res = results(apps, recent, q, max_results, recent_enabled);
            forall|i: int, j: int|
                0 <= i < j < res.len() ==> kind_rank((#[trigger] res[i]).item_type) <= kind_rank(
                    (#[trigger] res[j]).item_type,
                )
        }),
{
    lemma_matching_apps_match(apps, q);
    lemma_matching_files_from(recent, q);
    let cmd: Seq<AppInfoView> = match command_item_of(q) {
        Some(x) => seq![x],
        None => seq![],
    };
    let ma = matching_apps(apps, q);
    let files: Seq<AppInfoView> = if recent_enabled {
        matching_files(recent, q)
    } else {
        seq![]
    };
    let all = cmd + ma + files;
    let res = results(apps, recent, q, max_results, recent_enabled);
    assert forall|i: int| 0 <= i < all.len() implies kind_rank((#[trigger] all[i]).item_type) == if i
        < cmd.len() {
        0int
    } else if i < cmd.len() + ma.len() {
        1int
    } else {
        2int
    } by {
        if i < cmd.len() {
            assert(all[i] == cmd[i]);
        } else if i < cmd.len() + ma.len() {
            assert(all[i] == ma[i - cmd.len()]);
            let j = choose|j: int| 0 <= j < apps.len() && apps[j] == ma[i - cmd.len()];
            assert(apps[j].item_type == ItemType::Application);
        } else {
            assert(all[i] == files[i - cmd.len() - ma.len()]);
            let k = i - cmd.len() - ma.len();
            let j = choose|j: int| 0 <= j < recent.len() && recent[j] == matching_files(recent, q)[k];
            assert(recent[j].item_type == ItemType::RecentFile);
        }
    }
    assert forall|i: int, j: int| 0 <= i < j < res.len() implies kind_rank(
        (#[trigger] res[i]).item_type,
    ) <= kind_rank((#[trigger] res[j]).item_type) by {
        assert(res[i] == all[i]);
        assert(res[j] == all[j]);
        assert(kind_rank(all[i].item_type) == if i < cmd.len() {
            0int
        } else if i < cmd.len() + ma.len() {
            1int
        } else {
            2int
        });
        assert(kind_rank(all[j].item_type) == if j < cmd.len() {
            0int
        } else if j < cmd.len() + ma.len() {
            1int
        } else {
            2int
        });
    }
}

} // verus!
