//! The parts of the launcher configuration that the core reads, their
//! defaults, and `~` expansion of configured paths.
use vstd::prelude::*;
use crate::text::{chars_of, equals_lit, starts_with, starts_with_lit};

verus! {

#[derive(Debug, Clone)]
pub struct WindowSettings {
    pub width: i32,
    pub height: i32,
    pub position: String,
}

#[derive(Debug, Clone)]
pub struct BehaviorSettings {
    pub max_results: usize,
    pub auto_close: bool,
    pub show_descriptions: bool,
    pub quit_on_close: bool,
}

#[derive(Debug, Clone)]
pub struct RecentFilesSettings {
    pub enabled: bool,
    pub max_files: usize,
    pub directories: Vec<String>,
    pub xbel_path: String,
}

impl Default for WindowSettings {
    fn default() -> (r: WindowSettings)
        ensures
            r.width == 700,
            r.height == 500,
            r.position@ == "center"@,
    {
        WindowSettings { width: 700, height: 500, position: "center".to_owned() }
    }
}

impl Default for BehaviorSettings {
    fn default() -> (r: BehaviorSettings)
        ensures
            r.max_results == 50,
            r.auto_close,
            r.show_descriptions,
            !r.quit_on_close,
    {
        BehaviorSettings {
            max_results: 50,
            auto_close: true,
            show_descriptions: true,
            quit_on_close: false,
        }
    }
}

impl Default for RecentFilesSettings {
    fn default() -> (r: RecentFilesSettings)
        ensures
            r.enabled,
            r.max_files == 200,
            r.xbel_path@ == "~/.local/share/recently-used.xbel"@,
            r.directories.deep_view() == seq!["~/Documents"@, "~/Downloads"@, "~/Desktop"@, "~/Pictures"@],
    {
        let mut directories: Vec<String> = Vec::new();
        directories.push("~/Documents".to_owned());
        directories.push("~/Downloads".to_owned());
        directories.push("~/Desktop".to_owned());
        directories.push("~/Pictures".to_owned());
        let r = RecentFilesSettings {
            enabled: true,
            max_files: 200,
            directories,
            xbel_path: "~/.local/share/recently-used.xbel".to_owned(),
        };
        assert(r.directories.deep_view() =~= seq![
            "~/Documents"@,
            "~/Downloads"@,
            "~/Desktop"@,
            "~/Pictures"@,
        ]);
        r
    }
}

/// A path with a leading `~` expanded to the home directory: `~` alone is
/// the home directory, `~/rest` is the home directory followed by `/rest`,
/// and `~user` stays as it is. None where the path needs a home directory
/// and none is known.
pub open spec fn expand_tilde_spec(p: Seq<char>, home: Option<Seq<char>>) -> Option<Seq<char>> {
    if starts_with(p, "~"@) {
        match home {
            None => None,
            Some(h) => if p == "~"@ {
                Some(h)
            } else if starts_with(p, "~/"@) {
                Some(h + p.skip(1))
            } else {
                Some(p)
            },
        }
    } else {
        Some(p)
    }
}

/// The characters of a home directory, if known.
pub open spec fn home_view(home: Option<&str>) -> Option<Seq<char>> {
    match home {
        Some(h) => Some(h@),
        None => None,
    }
}

/// Expands a leading `~` of a path to the home directory.
pub fn expand_tilde(path: &str, home: Option<&str>) -> (r: Option<String>)
    ensures
        match r {
            Some(s) => expand_tilde_spec(path@, home_view(home)) == Some(s@),
            None => expand_tilde_spec(path@, home_view(home)) is None,
        },
{
    let p = chars_of(path);
    if !starts_with_lit(&p, "~") {
        return Some(path.to_owned());
    }
    match home {
        None => None,
        Some(h) => {
            if equals_lit(&p, "~") {
                Some(h.to_owned())
            } else if starts_with_lit(&p, "~/") {
                proof {
                    reveal_strlit("~/");
                }
                let mut out = h.to_owned();
                let rest = crate::text::string_of_range(&p, 1, p.len());
                out.append(rest.as_str());
                assert(p@.subrange(1, p@.len() as int) =~= p@.skip(1));
                Some(out)
            } else {
                Some(path.to_owned())
            }
        },
    }
}

/// The expansions of the paths, while each succeeds.
pub open spec fn expand_all(ps: Seq<Seq<char>>, home: Option<Seq<char>>) -> Option<Seq<Seq<char>>>
    decreases ps.len(),
{
    if ps.len() == 0 {
        Some(seq![])
    } else {
        match (expand_all(ps.drop_last(), home), expand_tilde_spec(ps.last(), home)) {
            (Some(prev), Some(x)) => Some(prev.push(x)),
            _ => None,
        }
    }
}

proof fn lemma_expand_all_prefix_fails(ps: Seq<Seq<char>>, k: int, home: Option<Seq<char>>)
    requires
        0 <= k <= ps.len(),
        expand_all(ps.take(k), home) is None,
    ensures
        expand_all(ps, home) is None,
    decreases ps.len() - k,
{
    if k < ps.len() {
        assert(ps.take(k + 1).drop_last() =~= ps.take(k));
        lemma_expand_all_prefix_fails(ps, k + 1, home);
    } else {
        assert(ps.take(k) =~= ps);
    }
}

impl RecentFilesSettings {
    /// Expands `~` in the bookmark-log path and then in the directories.
    /// Where an expansion fails, the field it belongs to stays unchanged and
    /// the result is false.
    pub fn expand_paths(&mut self, home: Option<&str>) -> (ok: bool)
        ensures
            final(self).enabled == old(self).enabled,
            final(self).max_files == old(self).max_files,
            ({
                let h = home_view(home);
                match expand_tilde_spec(old(self).xbel_path@, h) {
                    None => !ok && final(self).xbel_path@ == old(self).xbel_path@
                        && final(self).directories.deep_view() == old(
                        self,
                    ).directories.deep_view(),
                    Some(x) => final(self).xbel_path@ == x && match expand_all(
                        old(self).directories.deep_view(),
                        h,
                    ) {
                        Some(ds) => ok && final(self).directories.deep_view() == ds,
                        None => !ok && final(self).directories.deep_view() == old(
                            self,
                        ).directories.deep_view(),
                    },
                }
            }),
    {
        match expand_tilde(self.xbel_path.as_str(), home) {
            None => {
                return false;
            },
            Some(x) => {
                self.xbel_path = x;
            },
        }
        let ghost h = home_view(home);
        let ghost ds = self.directories.deep_view();
        let mut expanded: Vec<String> = Vec::new();
        let mut i: usize = 0;
        assert(ds.take(0) =~= Seq::<Seq<char>>::empty());
        assert(expanded.deep_view() =~= Seq::<Seq<char>>::empty());
        while i < self.directories.len()
            invariant
                i <= ds.len(),
                ds == self.directories.deep_view(),
                ds == old(self).directories.deep_view(),
                self.enabled == old(self).enabled,
                self.max_files == old(self).max_files,
                expand_tilde_spec(old(self).xbel_path@, h) == Some(self.xbel_path@),
                h == home_view(home),
                expand_all(ds.take(i as int), h) == Some(expanded.deep_view()),
            decreases ds.len() - i,
        {
            assert(ds.take(i + 1 as int).drop_last() =~= ds.take(i as int));
            assert(ds.take(i + 1 as int).last() == self.directories@[i as int]@);
            match expand_tilde(self.directories[i].as_str(), home) {
                None => {
                    proof {
                        lemma_expand_all_prefix_fails(ds, i + 1, h);
                    }
                    return false;
                },
                Some(x) => {
                    let ghost before = expanded.deep_view();
                    expanded.push(x);
                    assert(expanded.deep_view() =~= before.push(x@));
                },
            }
            i = i + 1;
        }
        assert(ds.take(ds.len() as int) =~= ds);
        self.directories = expanded;
        true
    }
}

} // verus!
