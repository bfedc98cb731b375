//! The application-entry parser: one line-oriented `Key=value` document
//! into an application item, or a rejection.
use vstd::prelude::*;
use crate::app_info::{AppInfo, AppInfoView, ItemType};
use crate::text::{
    append_chars, chars_of, equals_lit, starts_with_lit, lines, line_end, lemma_line_split_extend, line_split,
    split_fields, starts_with, string_of, sub_chars, fields, trimmed_line, white_space,
};

verus! {

/// Why an entry was rejected.
#[derive(Debug, Clone, Copy, PartialEq, Eq, Structural)]
pub enum EntryError {
    MissingName,
    MissingExec,
    Hidden,
}

/// What the scan of an entry has gathered so far.
pub struct EntryScan {
    pub name: Seq<char>,
    pub description: Seq<char>,
    pub command: Seq<char>,
    pub icon: Option<Seq<char>>,
    pub categories: Seq<Seq<char>>,
    pub no_display: bool,
    pub hidden: bool,
}

pub open spec fn entry_start() -> EntryScan {
    EntryScan {
        name: seq![],
        description: seq![],
        command: seq![],
        icon: None,
        categories: seq![],
        no_display: false,
        hidden: false,
    }
}

/// One trimmed line of an entry. `Name=` and `Comment=` keep their first
/// non-empty value, `Exec=` its last, `Icon=` its first, `Categories=` its
/// last; the two flags are exact lines.
pub open spec fn entry_step(st: EntryScan, line: Seq<char>) -> EntryScan {
    if starts_with(line, "Name="@) && st.name.len() == 0 {
        EntryScan { name: line.skip("Name="@.len() as int), ..st }
    } else if starts_with(line, "Comment="@) && st.description.len() == 0 {
        EntryScan { description: line.skip("Comment="@.len() as int), ..st }
    } else if starts_with(line, "Exec="@) {
        EntryScan { command: line.skip("Exec="@.len() as int), ..st }
    } else if starts_with(line, "Icon="@) {
        if st.icon is None {
            EntryScan { icon: Some(line.skip("Icon="@.len() as int)), ..st }
        } else {
            st
        }
    } else if starts_with(line, "Categories="@) {
        EntryScan { categories: fields(line.skip("Categories="@.len() as int), ';'), ..st }
    } else if line == "NoDisplay=true"@ {
        EntryScan { no_display: true, ..st }
    } else if line == "Hidden=true"@ {
        EntryScan { hidden: true, ..st }
    } else {
        st
    }
}

/// The scan of a sequence of lines, each trimmed first.
pub open spec fn entry_scan(ls: Seq<Seq<char>>) -> EntryScan
    decreases ls.len(),
{
    if ls.len() == 0 {
        entry_start()
    } else {
        entry_step(entry_scan(ls.drop_last()), crate::text::trim(ls.last()))
    }
}

/// The command line as joined so far, and the token still open at the end.
pub open spec fn token_split(s: Seq<char>) -> (Seq<char>, Seq<char>)
    decreases s.len(),
{
    if s.len() == 0 {
        (seq![], seq![])
    } else {
        let (o, c) = token_split(s.drop_last());
        if white_space(s.last()) {
            (flush_token(o, c), seq![])
        } else {
            (o, c.push(s.last()))
        }
    }
}

/// Appends a token, after one space, unless it is empty or a `%` field code.
pub open spec fn flush_token(o: Seq<char>, c: Seq<char>) -> Seq<char> {
    if c.len() == 0 || c[0] == '%' {
        o
    } else if o.len() == 0 {
        c
    } else {
        o + seq![' '] + c
    }
}

/// The white-space separated tokens of `s` that do not start with `%`,
/// joined by single spaces.
pub open spec fn clean_exec(s: Seq<char>) -> Seq<char> {
    let (o, c) = token_split(s);
    flush_token(o, c)
}

/// Why a scanned entry is rejected, if it is.
pub open spec fn entry_rejection(st: EntryScan) -> Option<EntryError> {
    if st.name.len() == 0 {
        Some(EntryError::MissingName)
    } else if clean_exec(st.command).len() == 0 {
        Some(EntryError::MissingExec)
    } else if st.no_display || st.hidden {
        Some(EntryError::Hidden)
    } else {
        None
    }
}

/// The application item that an entry document describes, if it is not
/// rejected.
pub open spec fn entry_of(content: Seq<char>) -> Option<AppInfoView> {
    let st = entry_scan(lines(content));
    if entry_rejection(st) is Some {
        None
    } else {
        Some(
            AppInfoView {
                name: st.name,
                description: st.description,
                exec_command: clean_exec(st.command),
                icon: st.icon,
                categories: st.categories,
                item_type: ItemType::Application,
                file_path: None,
            },
        )
    }
}

/// No `%` begins a white-space separated token of `s`.
pub open spec fn no_field_codes(s: Seq<char>) -> bool {
    forall|i: int| 0 <= i < s.len() && #[trigger] s[i] == '%' ==> i > 0 && !white_space(s[i - 1])
}

proof fn lemma_flush_keeps_no_field_codes(o: Seq<char>, c: Seq<char>)
    requires
        no_field_codes(o),
        forall|k: int| 0 <= k < c.len() ==> !white_space(#[trigger] c[k]),
    ensures
        no_field_codes(flush_token(o, c)),
{
    let r = flush_token(o, c);
    if c.len() == 0 || c[0] == '%' {
    } else if o.len() == 0 {
        assert forall|i: int| 0 <= i < r.len() && #[trigger] r[i] == '%' implies i > 0
            && !white_space(r[i - 1]) by {
            assert(r[i] == c[i]);
            assert(i > 0);
            assert(!white_space(c[i - 1]));
        }
    } else {
        assert forall|i: int| 0 <= i < r.len() && #[trigger] r[i] == '%' implies i > 0
            && !white_space(r[i - 1]) by {
            if i < o.len() {
                assert(r[i] == o[i]);
                assert(o[i] == '%');
                assert(r[i - 1] == o[i - 1]);
            } else if i == o.len() {
                assert(r[i] == ' ');
            } else {
                let j = i - o.len() - 1;
                assert(r[i] == c[j]);
                assert(j > 0);
                assert(r[i - 1] == c[j - 1]);
                assert(!white_space(c[j - 1]));
            }
        }
    }
}

proof fn lemma_token_split_no_field_codes(s: Seq<char>)
    ensures
        no_field_codes(token_split(s).0),
        forall|k: int|
            0 <= k < token_split(s).1.len() ==> !white_space(#[trigger] token_split(s).1[k]),
    decreases s.len(),
{
    if s.len() > 0 {
        lemma_token_split_no_field_codes(s.drop_last());
        let (o, c) = token_split(s.drop_last());
        if white_space(s.last()) {
            lemma_flush_keeps_no_field_codes(o, c);
        } else {
            assert forall|k: int| 0 <= k < c.push(s.last()).len() implies !white_space(
                #[trigger] c.push(s.last())[k],
            ) by {
                if k < c.len() {
                    assert(c.push(s.last())[k] == c[k]);
                }
            }
        }
    }
}

/// The command of every accepted entry is non-empty and free of `%` field
/// codes: no white-space separated token of it starts with `%`.
pub proof fn lemma_accepted_exec_has_no_field_codes(content: Seq<char>)
    ensures
        entry_of(content) matches Some(a) ==> no_field_codes(a.exec_command)
            && a.exec_command.len() > 0,
{
    let st = entry_scan(lines(content));
    lemma_token_split_no_field_codes(st.command);
    let (o, c) = token_split(st.command);
    lemma_flush_keeps_no_field_codes(o, c);
}

/// An entry without a name, without a command (or with one made of field
/// codes alone), or flagged `NoDisplay=true` or `Hidden=true`, is rejected:
/// no item comes of it.
pub proof fn lemma_incomplete_or_hidden_entry_rejected(content: Seq<char>)
    requires
        ({
            let st = entry_scan(lines(content));
            st.name.len() == 0 || st.command.len() == 0 || clean_exec(st.command).len() == 0
                || st.no_display || st.hidden
        }),
    ensures
        entry_of(content) is None,
{
    let st = entry_scan(lines(content));
    assert(token_split(Seq::<char>::empty()) == (Seq::<char>::empty(), Seq::<char>::empty()));
    if st.command.len() == 0 {
        assert(st.command =~= Seq::<char>::empty());
    }
}

struct EntryState {
    name: Vec<char>,
    description: Vec<char>,
    command: Vec<char>,
    icon: Option<Vec<char>>,
    categories: Vec<String>,
    no_display: bool,
    hidden: bool,
}

spec fn opt_chars(o: Option<Vec<char>>) -> Option<Seq<char>> {
    match o {
        Some(v) => Some(v@),
        None => None,
    }
}

impl View for EntryState {
    type V = EntryScan;

    closed spec fn view(&self) -> EntryScan {
        EntryScan {
            name: self.name@,
            description: self.description@,
            command: self.command@,
            icon: opt_chars(self.icon),
            categories: self.categories.deep_view(),
            no_display: self.no_display,
            hidden: self.hidden,
        }
    }
}

fn value_after(line: &Vec<char>, lit: &str) -> (r: Vec<char>)
    requires
        starts_with(line@, lit@),
    ensures
        r@ == line@.skip(lit@.len() as int),
{
    let n = lit.unicode_len();
    sub_chars(line, n, line.len())
}

fn entry_step_exec(st: &mut EntryState, line: &Vec<char>)
    ensures
        final(st)@ == entry_step(old(st)@, line@),
{
    if starts_with_lit(line, "Name=") && st.name.len() == 0 {
        st.name = value_after(line, "Name=");
    } else if starts_with_lit(line, "Comment=") && st.description.len() == 0 {
        st.description = value_after(line, "Comment=");
    } else if starts_with_lit(line, "Exec=") {
        st.command = value_after(line, "Exec=");
    } else if starts_with_lit(line, "Icon=") {
        if st.icon.is_none() {
            st.icon = Some(value_after(line, "Icon="));
        }
    } else if starts_with_lit(line, "Categories=") {
        let v = value_after(line, "Categories=");
        st.categories = split_fields(&v, ';');
    } else if equals_lit(line, "NoDisplay=true") {
        st.no_display = true;
    } else if equals_lit(line, "Hidden=true") {
        st.hidden = true;
    }
}

/// The command line without `%` field codes, tokens joined by single spaces.
pub fn clean_exec_line(s: &Vec<char>) -> (r: Vec<char>)
    ensures
        r@ == clean_exec(s@),
{
    let mut out: Vec<char> = Vec::new();
    let mut cur: Vec<char> = Vec::new();
    let mut i: usize = 0;
    while i < s.len()
        invariant
            i <= s@.len(),
            (out@, cur@) == token_split(s@.take(i as int)),
        decreases s@.len() - i,
    {
        assert(s@.take(i + 1 as int).drop_last() =~= s@.take(i as int));
        if s[i].is_whitespace() {
            flush_token_exec(&mut out, &cur);
            cur = Vec::new();
        } else {
            cur.push(s[i]);
        }
        i = i + 1;
    }
    assert(s@.take(s@.len() as int) =~= s@);
    flush_token_exec(&mut out, &cur);
    out
}

fn flush_token_exec(out: &mut Vec<char>, cur: &Vec<char>)
    ensures
        final(out)@ == flush_token(old(out)@, cur@),
{
    if cur.len() == 0 || cur[0] == '%' {
        return;
    }
    let ghost before = out@;
    if out.len() > 0 {
        out.push(' ');
    }
    append_chars(out, cur);
    proof {
        if before.len() > 0 {
            assert(out@ =~= before + seq![' '] + cur@);
        } else {
            assert(out@ =~= cur@);
        }
    }
}

/// Parses one application-entry document.
pub fn parse_desktop_entry(content: &str) -> (r: Result<AppInfo, EntryError>)
    ensures
        match r {
            Ok(a) => entry_of(content@) == Some(a@),
            Err(e) => entry_of(content@) is None && entry_rejection(entry_scan(lines(content@)))
                == Some(e),
        },
{
    let s = chars_of(content);
    let mut st = EntryState {
        name: Vec::new(),
        description: Vec::new(),
        command: Vec::new(),
        icon: None,
        categories: Vec::new(),
        no_display: false,
        hidden: false,
    };
    assert(st.categories.deep_view() =~= Seq::<Seq<char>>::empty());
    assert(s@.take(0) =~= Seq::<char>::empty());
    let mut start: usize = 0;
    loop
        invariant_except_break
            start <= s@.len(),
            line_split(s@.take(start as int)).1 == Seq::<char>::empty(),
            st@ == entry_scan(line_split(s@.take(start as int)).0),
        ensures
            st@ == entry_scan(lines(s@)),
        decreases s@.len() - start,
    {
        let e = line_end(&s, start);
        proof {
            lemma_line_split_extend(s@, start as int, e as int);
        }
        let line = trimmed_line(&s, start, e);
        let ghost done = line_split(s@.take(start as int)).0;
        let ghost open_line = s@.subrange(start as int, e as int);
        entry_step_exec(&mut st, &line);
        assert(done.push(open_line).drop_last() =~= done);
        if e == s.len() {
            assert(s@.take(e as int) =~= s@);
            break;
        }
        assert(s@.take(e + 1 as int).drop_last() =~= s@.take(e as int));
        start = e + 1;
    }
    if st.name.len() == 0 {
        return Err(EntryError::MissingName);
    }
    let command = clean_exec_line(&st.command);
    if command.len() == 0 {
        return Err(EntryError::MissingExec);
    }
    if st.no_display || st.hidden {
        return Err(EntryError::Hidden);
    }
    let icon = match &st.icon {
        Some(v) => Some(string_of(v)),
        None => None,
    };
    let item = AppInfo {
        name: string_of(&st.name),
        description: string_of(&st.description),
        exec_command: string_of(&command),
        icon,
        categories: st.categories,
        item_type: ItemType::Application,
        file_path: None,
    };
    Ok(item)
}

} // verus!
