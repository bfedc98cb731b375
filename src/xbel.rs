//! The recent-files bookmark log: a line-oriented scan of its bookmark,
//! MIME-type and closing tags.
use vstd::prelude::*;
use crate::app_info::XbelBookmark;
use crate::text::{
    chars_of, contains, occurs_at, contains_chars, find_from, find_chars, lemma_line_split_extend, line_end,
    line_split, lines, occurs_at_exec, replace_all, replace_chars, starts_with, string_of,
    sub_chars, trim, trimmed_line,
};

verus! {

/// What a bookmark holds: the file path and the MIME type.
pub struct BookmarkView {
    pub file_path: Seq<char>,
    pub mime_type: Seq<char>,
}

impl View for XbelBookmark {
    type V = BookmarkView;

    open spec fn view(&self) -> BookmarkView {
        BookmarkView { file_path: self.file_path@, mime_type: self.mime_type@ }
    }
}

/// The bookmarks closed so far, and the one in progress.
pub struct XbelScan {
    pub done: Seq<BookmarkView>,
    pub current: Option<BookmarkView>,
}

pub open spec fn bookmark_open_tag() -> Seq<char> {
    "<bookmark href=\"file://"@
}

pub open spec fn mime_tag() -> Seq<char> {
    "<mime:mime-type type=\""@
}

/// The path of a `file://` reference: the scheme removed and `%20` decoded
/// to a space.
pub open spec fn path_of_url(url: Seq<char>) -> Seq<char> {
    replace_all(replace_all(url, "file://"@, seq![]), "%20"@, " "@)
}

/// One trimmed line of the log.
pub open spec fn xbel_step(st: XbelScan, line: Seq<char>) -> XbelScan {
    if starts_with(line, bookmark_open_tag()) {
        match find_from(line, "file://"@, 0) {
            Some(s) => match find_from(line, "\""@, s) {
                Some(e) => XbelScan {
                    current: Some(
                        BookmarkView {
                            file_path: path_of_url(line.subrange(s, e)),
                            mime_type: seq![],
                        },
                    ),
                    ..st
                },
                None => st,
            },
            None => st,
        }
    } else if contains(line, mime_tag()) {
        match st.current {
            Some(b) => match find_from(line, "type=\""@, 0) {
                Some(t) => match find_from(line, "\""@, t + "type=\""@.len()) {
                    Some(e) => XbelScan {
                        current: Some(
                            BookmarkView {
                                mime_type: line.subrange(t + "type=\""@.len(), e),
                                ..b
                            },
                        ),
                        ..st
                    },
                    None => st,
                },
                None => st,
            },
            None => st,
        }
    } else if starts_with(line, "</bookmark>"@) {
        match st.current {
            Some(b) => XbelScan { done: st.done.push(b), current: None },
            None => st,
        }
    } else {
        st
    }
}

/// The scan of a sequence of lines, each trimmed first.
pub open spec fn xbel_scan(ls: Seq<Seq<char>>) -> XbelScan
    decreases ls.len(),
{
    if ls.len() == 0 {
        XbelScan { done: seq![], current: None }
    } else {
        xbel_step(xbel_scan(ls.drop_last()), trim(ls.last()))
    }
}

/// The bookmarks of a log, in document order.
pub open spec fn bookmarks_of(content: Seq<char>) -> Seq<BookmarkView> {
    xbel_scan(lines(content)).done
}

spec fn bookmarks_view(v: Seq<XbelBookmark>) -> Seq<BookmarkView> {
    v.map_values(|b: XbelBookmark| b@)
}

spec fn opt_bookmark_view(o: Option<XbelBookmark>) -> Option<BookmarkView> {
    match o {
        Some(b) => Some(b@),
        None => None,
    }
}

fn xbel_step_exec(
    done: &mut Vec<XbelBookmark>,
    current: &mut Option<XbelBookmark>,
    line: &Vec<char>,
)
    ensures
        ({
            let st = xbel_step(
                XbelScan { done: bookmarks_view(old(done)@), current: opt_bookmark_view(*old(current)) },
                line@,
            );
            bookmarks_view(final(done)@) == st.done && opt_bookmark_view(*final(current))
                == st.current
        }),
{
    let open_tag = chars_of("<bookmark href=\"file://");
    let scheme = chars_of("file://");
    let quote = chars_of("\"");
    if occurs_at_exec(line, &open_tag, 0) {
        match find_chars(line, &scheme, 0) {
            Some(s) => match find_chars(line, &quote, s) {
                Some(e) => {
                    proof {
                        crate::text::lemma_find_from_contains(line@, "file://"@, 0);
                        crate::text::lemma_find_from_contains(line@, "\""@, s as int);
                    }
                    let url = sub_chars(line, s, e);
                    proof {
                        reveal_strlit("file://");
                        reveal_strlit("%20");
                    }
                    let nothing: Vec<char> = Vec::new();
                    assert(nothing@ =~= Seq::<char>::empty());
                    let no_scheme = replace_chars(&url, &scheme, &nothing);
                    let path = replace_chars(&no_scheme, &chars_of("%20"), &chars_of(" "));
                    *current = Some(
                        XbelBookmark { file_path: string_of(&path), mime_type: String::new() },
                    );
                },
                None => {},
            },
            None => {},
        }
    } else if contains_chars(line, &chars_of("<mime:mime-type type=\"")) {
        if current.is_some() {
            let type_attr = chars_of("type=\"");
            match find_chars(line, &type_attr, 0) {
                Some(t) => {
                    proof {
                        crate::text::lemma_find_from_contains(line@, type_attr@, 0);
                        assert(occurs_at(line@, type_attr@, t as int));
                    }
                    let line_len = line.len();
                    assert(t + type_attr@.len() <= line_len);
                    let from = t + type_attr.len();
                    match find_chars(line, &quote, from) {
                        Some(e) => {
                            proof {
                                crate::text::lemma_find_from_contains(line@, "\""@, from as int);
                            }
                            let mime = string_of(&sub_chars(line, from, e));
                            let old_current = current.take();
                            match old_current {
                                Some(b) => {
                                    *current = Some(
                                        XbelBookmark { file_path: b.file_path, mime_type: mime },
                                    );
                                },
                                None => {},
                            }
                        },
                        None => {},
                    }
                },
                None => {},
            }
        }
    } else if occurs_at_exec(line, &chars_of("</bookmark>"), 0) {
        let old_current = current.take();
        match old_current {
            Some(b) => {
                let ghost before = bookmarks_view(done@);
                done.push(b);
                assert(bookmarks_view(done@) =~= before.push(b@));
            },
            None => {},
        }
    }
}

/// The bookmarks of a recent-files log, in document order: each opened by
/// a `file://` reference and closed by its closing tag. A MIME line within
/// sets the MIME type from its first `type="` attribute; a later one
/// replaces it.
pub fn parse_xbel(content: &str) -> (r: Vec<XbelBookmark>)
    ensures
        r@.map_values(|b: XbelBookmark| b@) == bookmarks_of(content@),
{
    let s = chars_of(content);
    let mut done: Vec<XbelBookmark> = Vec::new();
    let mut current: Option<XbelBookmark> = None;
    assert(bookmarks_view(done@) =~= Seq::<BookmarkView>::empty());
    assert(s@.take(0) =~= Seq::<char>::empty());
    let mut start: usize = 0;
    loop
        invariant_except_break
            start <= s@.len(),
            line_split(s@.take(start as int)).1 == Seq::<char>::empty(),
            xbel_scan(line_split(s@.take(start as int)).0) == (XbelScan {
                done: bookmarks_view(done@),
                current: opt_bookmark_view(current),
            }),
        ensures
            xbel_scan(lines(s@)) == (XbelScan {
                done: bookmarks_view(done@),
                current: opt_bookmark_view(current),
            }),
        decreases s@.len() - start,
    {
        let e = line_end(&s, start);
        proof {
            lemma_line_split_extend(s@, start as int, e as int);
        }
        let line = trimmed_line(&s, start, e);
        let ghost finished = line_split(s@.take(start as int)).0;
        let ghost open_line = s@.subrange(start as int, e as int);
        xbel_step_exec(&mut done, &mut current, &line);
        assert(finished.push(open_line).drop_last() =~= finished);
        if e == s.len() {
            assert(s@.take(e as int) =~= s@);
            break;
        }
        assert(s@.take(e + 1 as int).drop_last() =~= s@.take(e as int));
        start = e + 1;
    }
    done
}

} // verus!
