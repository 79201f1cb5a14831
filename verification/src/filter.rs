//! The entry filter: a pure predicate that selects the entries an action
//! is applied to.

use vstd::prelude::*;
use vstd::string::*;

use crate::entry::Entry;
use crate::entry::EntryView;
use crate::entry::entry_views;
use crate::pattern::ConfigError;
use crate::pattern::Pattern;
use crate::pattern::compiles;
use crate::pattern::leftmost_match;
use crate::text::hidden;
use crate::text::is_hidden;

verus! {

/// Which kind of entry a filter lets through.
#[derive(Debug, Clone, Copy, PartialEq, Eq, Structural)]
pub enum Kind {
    /// Everything but directories.
    File,
    /// Directories only.
    Dir,
    /// Every entry.
    Any,
}

/// What a filter's pattern is matched against.
#[derive(Debug, Clone, Copy, PartialEq, Eq, Structural)]
pub enum Subject {
    /// The entry's own name.
    Name,
    /// The entry's whole path.
    Path,
}

/// The conditions that an entry must meet to be selected. An absent
/// condition lets every entry through.
pub struct FilterConfig {
    /// The exact name the entry must have.
    pub name_equals: Option<String>,
    /// The pattern that must match the entry's name or path.
    pub name_regex: Option<Pattern>,
    /// Whether the pattern reads the name or the path.
    pub subject: Subject,
    /// The kind of entry wanted.
    pub kind: Kind,
    /// Whether hidden entries are left out.
    pub exclude_hidden: bool,
}

/// The mathematical value of a [`FilterConfig`].
pub struct FilterView {
    pub name_equals: Option<Seq<char>>,
    pub name_regex: Option<Seq<char>>,
    pub subject: Subject,
    pub kind: Kind,
    pub exclude_hidden: bool,
}

/// Whether an entry is of the kind wanted.
pub open spec fn kind_admits(kind: Kind, e: EntryView) -> bool {
    match kind {
        Kind::File => !e.is_dir,
        Kind::Dir => e.is_dir,
        Kind::Any => true,
    }
}

/// The text of an entry that a pattern reads.
pub open spec fn subject_text(subject: Subject, e: EntryView) -> Seq<char> {
    match subject {
        Subject::Name => e.name,
        Subject::Path => e.path,
    }
}

impl FilterView {
    /// Whether the filter selects the entry: it is of the kind wanted, has
    /// the name asked for, is matched by the pattern, and is not hidden
    /// where hidden entries are left out.
    pub open spec fn admits(self, e: EntryView) -> bool {
        &&& kind_admits(self.kind, e)
        &&& (self.name_equals matches Some(name) ==> e.name == name)
        &&& (self.name_regex matches Some(pattern) ==> leftmost_match(
            pattern,
            subject_text(self.subject, e),
        ).is_some())
        &&& (self.exclude_hidden ==> !hidden(e.name))
    }

    /// The filter as a predicate on entries.
    pub open spec fn pick(self) -> spec_fn(EntryView) -> bool {
        |e: EntryView| self.admits(e)
    }
}

impl View for FilterConfig {
    type V = FilterView;

    open spec fn view(&self) -> FilterView {
        FilterView {
            name_equals: match self.name_equals {
                Some(name) => Some(name@),
                None => None,
            },
            name_regex: match self.name_regex {
                Some(pattern) => Some(pattern@),
                None => None,
            },
            subject: self.subject,
            kind: self.kind,
            exclude_hidden: self.exclude_hidden,
        }
    }
}

/// Tells whether an entry is of the kind wanted.
fn kind_accepts(kind: Kind, entry: &Entry) -> (yes: bool)
    ensures
        yes == kind_admits(kind, entry@),
{
    match kind {
        Kind::File => !entry.is_dir,
        Kind::Dir => entry.is_dir,
        Kind::Any => true,
    }
}

impl FilterConfig {
    /// The filter that selects entries by exact name and kind.
    pub fn named(name: &str, kind: Kind) -> (filter: FilterConfig)
        ensures
            filter@ == (FilterView {
                name_equals: Some(name@),
                name_regex: None,
                subject: Subject::Name,
                kind,
                exclude_hidden: false,
            }),
    {
        FilterConfig {
            name_equals: Some(name.to_owned()),
            name_regex: None,
            subject: Subject::Name,
            kind,
            exclude_hidden: false,
        }
    }

    /// The filter for the directories that hold a Python virtual
    /// environment.
    pub fn venv_dirs() -> (filter: FilterConfig)
        ensures
            filter@ == (FilterView {
                name_equals: Some(".venv"@),
                name_regex: None,
                subject: Subject::Name,
                kind: Kind::Dir,
                exclude_hidden: false,
            }),
    {
        FilterConfig::named(".venv", Kind::Dir)
    }

    /// The filter for the metadata files that the macOS Finder leaves
    /// behind.
    pub fn ds_store() -> (filter: FilterConfig)
        ensures
            filter@ == (FilterView {
                name_equals: Some(".DS_Store"@),
                name_regex: None,
                subject: Subject::Name,
                kind: Kind::Any,
                exclude_hidden: false,
            }),
    {
        FilterConfig::named(".DS_Store", Kind::Any)
    }

    /// Puts a filter together from its conditions and the outcome of
    /// compiling its pattern, if it has one. A pattern that did not compile
    /// refuses the filter.
    pub fn assemble(
        name_equals: Option<String>,
        compiled: Option<Result<Pattern, String>>,
        subject: Subject,
        kind: Kind,
        exclude_hidden: bool,
    ) -> (made: Result<FilterConfig, ConfigError>)
        ensures
            match compiled {
                Some(Err(reason)) => made == Err::<FilterConfig, ConfigError>(
                    ConfigError::InvalidNamePattern { reason },
                ),
                Some(Ok(pattern)) => made == Ok::<FilterConfig, ConfigError>(
                    FilterConfig {
                        name_equals,
                        name_regex: Some(pattern),
                        subject,
                        kind,
                        exclude_hidden,
                    },
                ),
                None => made == Ok::<FilterConfig, ConfigError>(
                    FilterConfig { name_equals, name_regex: None, subject, kind, exclude_hidden },
                ),
            },
    {
        match compiled {
            Some(Err(reason)) => Err(ConfigError::InvalidNamePattern { reason }),
            Some(Ok(pattern)) => Ok(
                FilterConfig { name_equals, name_regex: Some(pattern), subject, kind, exclude_hidden },
            ),
            None => Ok(
                FilterConfig { name_equals, name_regex: None, subject, kind, exclude_hidden },
            ),
        }
    }

    /// Builds a filter, compiling its pattern first: a filter with a
    /// pattern that does not compile never comes to exist, so no scan can
    /// start with one. The filter is built exactly when it has no pattern
    /// or its pattern compiles.
    pub fn build(
        name_equals: Option<String>,
        name_pattern: Option<&str>,
        subject: Subject,
        kind: Kind,
        exclude_hidden: bool,
    ) -> (made: Result<FilterConfig, ConfigError>)
        ensures
            made is Ok <==> (name_pattern matches Some(text) ==> compiles(text@)),
            made matches Ok(filter) ==> filter@ == (FilterView {
                name_equals: match name_equals {
                    Some(name) => Some(name@),
                    None => None,
                },
                name_regex: match name_pattern {
                    Some(text) => Some(text@),
                    None => None,
                },
                subject,
                kind,
                exclude_hidden,
            }),
            made matches Err(error) ==> error is InvalidNamePattern,
    {
        let compiled = match name_pattern {
            Some(text) => Some(Pattern::compile(text)),
            None => None,
        };
        FilterConfig::assemble(name_equals, compiled, subject, kind, exclude_hidden)
    }

    /// Tells whether the filter selects the entry.
    pub fn accepts(&self, entry: &Entry) -> (yes: bool)
        ensures
            yes == self@.admits(entry@),
    {
        if !kind_accepts(self.kind, entry) {
            return false;
        }
        if let Some(name) = &self.name_equals {
            if !(entry.name == *name) {
                return false;
            }
        }
        if let Some(pattern) = &self.name_regex {
            let subject = match self.subject {
                Subject::Name => entry.name.as_str(),
                Subject::Path => entry.path.as_str(),
            };
            if !pattern.is_match(subject) {
                return false;
            }
        }
        !(self.exclude_hidden && is_hidden(entry.name.as_str()))
    }

    /// The entries that the filter selects, in their order.
    pub fn select(&self, entries: Vec<Entry>) -> (chosen: Vec<Entry>)
        ensures
            entry_views(chosen@) == entry_views(entries@).filter(self@.pick()),
    {
        let ghost all = entry_views(entries@);
        let mut chosen: Vec<Entry> = Vec::new();
        let mut at: usize = 0;
        assert(all.subrange(0, 0) =~= Seq::<EntryView>::empty());
        while at < entries.len()
            invariant
                at <= entries.len(),
                all == entry_views(entries@),
                entry_views(chosen@) =~= all.subrange(0, at as int).filter(self@.pick()),
            decreases entries.len() - at,
        {
            proof {
                let seen = all.subrange(0, at as int);
                assert(all.subrange(0, at + 1) =~= seen.push(all[at as int]));
                seen.lemma_filter_push(all[at as int], self@.pick());
            }
            if self.accepts(&entries[at]) {
                let ghost before = chosen@;
                chosen.push(entries[at].clone());
                assert(entry_views(chosen@) =~= entry_views(before).push(all[at as int]));
            }
            at = at + 1;
        }
        assert(all.subrange(0, at as int) =~= all);
        chosen
    }
}

} // verus!
