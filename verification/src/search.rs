//! Searching a tree: by the names of its entries, or line by line in the
//! content of its files.

use vstd::prelude::*;
use vstd::string::*;

use crate::entry::Entry;
use crate::entry::EntryView;
use crate::lines::string_views;
use crate::lines::text_lines;
use crate::lines::text_lines_of;
use crate::outcome::ActionOutcome;
use crate::outcome::OutcomeView;
use crate::pattern::CASELESS;
use crate::pattern::ConfigError;
use crate::pattern::Pattern;
use crate::pattern::compiles;
use crate::pattern::leftmost_match;
use crate::text::lowercased;
use crate::text::to_lowercase;

verus! {

/// What a search looks for and where.
pub struct SearchConfig {
    /// The pattern searched for.
    pub pattern: Pattern,
    /// The pattern that a file's path must match for its content to be
    /// searched.
    pub file_name: Option<Pattern>,
    /// Whether letter case is disregarded.
    pub ignore_case: bool,
    /// Whether the paths are searched instead of the content.
    pub name_only: bool,
    /// Whether, of the paths, only those of directories are searched.
    pub dirs_only: bool,
}

/// The mathematical value of a [`SearchConfig`].
pub struct SearchView {
    pub pattern: Seq<char>,
    pub file_name: Option<Seq<char>>,
    pub ignore_case: bool,
    pub name_only: bool,
    pub dirs_only: bool,
}

impl View for SearchConfig {
    type V = SearchView;

    open spec fn view(&self) -> SearchView {
        SearchView {
            pattern: self.pattern@,
            file_name: match self.file_name {
                Some(pattern) => Some(pattern@),
                None => None,
            },
            ignore_case: self.ignore_case,
            name_only: self.name_only,
            dirs_only: self.dirs_only,
        }
    }
}

/// The views of a run of outcomes.
pub open spec fn outcome_views(outcomes: Seq<ActionOutcome>) -> Seq<OutcomeView> {
    outcomes.map_values(|o: ActionOutcome| o@)
}

/// Whether the flags of a search agree: directories only can be asked for
/// only where the search is by name.
pub open spec fn flags_agree(name_only: bool, dirs_only: bool) -> bool {
    name_only || !dirs_only
}

/// The pattern text that is compiled for a search.
pub open spec fn effective_pattern(pattern: Seq<char>, ignore_case: bool) -> Seq<char> {
    if ignore_case {
        CASELESS@ + pattern
    } else {
        pattern
    }
}

/// The line as it is searched and reported: in lower case when letter case
/// is disregarded.
pub open spec fn normalized(line: Seq<char>, ignore_case: bool) -> Seq<char> {
    if ignore_case {
        lowercased(line)
    } else {
        line
    }
}

/// The matches in the first `count` lines: for each line that the pattern
/// matches, in order, its index, the byte offset of its first match, and
/// the line.
pub open spec fn matches_in(
    pattern: Seq<char>,
    lines: Seq<Seq<char>>,
    ignore_case: bool,
    count: nat,
) -> Seq<OutcomeView>
    decreases count,
{
    if count == 0 || count > lines.len() {
        Seq::empty()
    } else {
        let earlier = matches_in(pattern, lines, ignore_case, (count - 1) as nat);
        let line = normalized(lines[count - 1], ignore_case);
        match leftmost_match(pattern, line) {
            Some(span) => earlier.push(
                OutcomeView::MatchFound {
                    line_index: (count - 1) as nat,
                    column: span.0,
                    snippet: line,
                },
            ),
            None => earlier,
        }
    }
}

/// Whether one of the outcomes reports a match in line `index`.
pub open spec fn reports_line(found: Seq<OutcomeView>, index: nat) -> bool {
    exists|i: int|
        0 <= i < found.len() && (#[trigger] found[i] matches OutcomeView::MatchFound {
            line_index,
            ..
        } && line_index == index)
}

/// Whether an outcome truly reports a match in one of the first `count`
/// lines: it names the line, quotes it as it was searched, and gives the
/// offset of the first match of the pattern in it.
pub open spec fn is_true_report(
    pattern: Seq<char>,
    lines: Seq<Seq<char>>,
    ignore_case: bool,
    count: nat,
    outcome: OutcomeView,
) -> bool {
    &&& outcome matches OutcomeView::MatchFound { line_index, column, snippet }
    &&& line_index < count
    &&& snippet == normalized(lines[line_index as int], ignore_case)
    &&& leftmost_match(pattern, snippet) matches Some(span)
    &&& column == span.0
}

/// What a search of the first `count` lines reports: nothing but matches;
/// a line is reported exactly when the pattern matches it; it is reported
/// with the offset of its first match and as it was searched; and the
/// reports stand in the order of the lines, each line at most once.
pub proof fn lemma_matches_are_the_matching_lines(
    pattern: Seq<char>,
    lines: Seq<Seq<char>>,
    ignore_case: bool,
    count: nat,
)
    requires
        count <= lines.len(),
    ensures
        forall|i: int|
            0 <= i < matches_in(pattern, lines, ignore_case, count).len() ==> is_true_report(
                pattern,
                lines,
                ignore_case,
                count,
                #[trigger] matches_in(pattern, lines, ignore_case, count)[i],
            ),
        forall|k: nat|
            #![trigger reports_line(matches_in(pattern, lines, ignore_case, count), k)]
            reports_line(matches_in(pattern, lines, ignore_case, count), k) <==> k < count
                && leftmost_match(pattern, normalized(lines[k as int], ignore_case)).is_some(),
        forall|i: int, j: int|
            #![trigger matches_in(pattern, lines, ignore_case, count)[i], matches_in(pattern, lines, ignore_case, count)[j]]
            0 <= i < j < matches_in(pattern, lines, ignore_case, count).len() ==> matches_in(
                pattern,
                lines,
                ignore_case,
                count,
            )[i]->MatchFound_line_index < matches_in(
                pattern,
                lines,
                ignore_case,
                count,
            )[j]->MatchFound_line_index,
    decreases count,
{
    let found = matches_in(pattern, lines, ignore_case, count);
    if count == 0 {
        assert forall|k: nat| !reports_line(found, k) by {}
    } else {
        let earlier = matches_in(pattern, lines, ignore_case, (count - 1) as nat);
        lemma_matches_are_the_matching_lines(pattern, lines, ignore_case, (count - 1) as nat);
        let line = normalized(lines[count - 1], ignore_case);
        assert forall|i: int| 0 <= i < found.len() implies is_true_report(
            pattern,
            lines,
            ignore_case,
            count,
            #[trigger] found[i],
        ) by {
            if i < earlier.len() {
                assert(found[i] == earlier[i]);
                assert(is_true_report(pattern, lines, ignore_case, (count - 1) as nat, earlier[i]));
            }
        }
        assert forall|k: nat|
            reports_line(found, k) <==> k < count && leftmost_match(
                pattern,
                normalized(lines[k as int], ignore_case),
            ).is_some() by {
            if reports_line(found, k) {
                let i = choose|i: int|
                    0 <= i < found.len() && (#[trigger] found[i] matches OutcomeView::MatchFound {
                        line_index,
                        ..
                    } && line_index == k);
                if i < earlier.len() {
                    assert(found[i] == earlier[i]);
                    assert(reports_line(earlier, k));
                }
            }
            if k < count && leftmost_match(
                pattern,
                normalized(lines[k as int], ignore_case),
            ).is_some() {
                if k == count - 1 {
                    assert(found[found.len() - 1]->MatchFound_line_index == k);
                } else {
                    assert(reports_line(earlier, k));
                    let i = choose|i: int|
                        0 <= i < earlier.len() && (
                        #[trigger] earlier[i] matches OutcomeView::MatchFound { line_index, .. }
                            && line_index == k);
                    assert(found[i] == earlier[i]);
                }
            }
        }
        assert forall|i: int, j: int| 0 <= i < j < found.len() implies found[i]->MatchFound_line_index
            < found[j]->MatchFound_line_index by {
            assert(found[i] == earlier[i]);
            if j < earlier.len() {
                assert(found[j] == earlier[j]);
            }
        }
    }
}

/// The outcomes that stand for a run of findings: the findings, or one
/// `Skipped` where there is none.
pub open spec fn or_skipped(found: Seq<OutcomeView>) -> Seq<OutcomeView> {
    if found.len() == 0 {
        seq![OutcomeView::Skipped]
    } else {
        found
    }
}

impl SearchView {
    /// Whether the content of the entry is to be read and searched: the
    /// search is not by name, the entry is no directory, and its path
    /// matches the file-name pattern if there is one.
    pub open spec fn reads(self, e: EntryView) -> bool {
        &&& !self.name_only
        &&& !e.is_dir
        &&& (self.file_name matches Some(p) ==> leftmost_match(p, e.path).is_some())
    }

    /// The outcome of searching the path of an entry: a match at line zero
    /// that quotes the path where the entry is of the kind searched and the
    /// pattern matches its path; skipped otherwise.
    pub open spec fn name_outcome(self, e: EntryView) -> OutcomeView {
        if e.is_dir == self.dirs_only {
            match leftmost_match(self.pattern, e.path) {
                Some(span) => OutcomeView::MatchFound {
                    line_index: 0,
                    column: span.0,
                    snippet: e.path,
                },
                None => OutcomeView::Skipped,
            }
        } else {
            OutcomeView::Skipped
        }
    }

    /// The outcomes of searching a file's bytes.
    pub open spec fn content_outcomes(self, bytes: Seq<u8>) -> Seq<OutcomeView> {
        or_skipped(
            matches_in(
                self.pattern,
                text_lines_of(bytes),
                self.ignore_case,
                text_lines_of(bytes).len(),
            ),
        )
    }

    /// The outcomes of the search for one entry, given the bytes of its
    /// content where the caller read them.
    pub open spec fn entry_outcomes(self, e: EntryView, content: Option<Seq<u8>>) -> Seq<
        OutcomeView,
    > {
        if self.name_only {
            seq![self.name_outcome(e)]
        } else if self.reads(e) && content is Some {
            self.content_outcomes(content->0)
        } else {
            seq![OutcomeView::Skipped]
        }
    }
}

impl SearchConfig {
    /// Puts a search together from its flags and the outcomes of compiling
    /// its patterns. Asking for directories only without searching by name
    /// is refused first, then a search pattern that did not compile, then a
    /// file-name pattern that did not.
    pub fn assemble(
        compiled: Result<Pattern, String>,
        file_name: Option<Result<Pattern, String>>,
        ignore_case: bool,
        name_only: bool,
        dirs_only: bool,
    ) -> (made: Result<SearchConfig, ConfigError>)
        ensures
            made == if dirs_only && !name_only {
                Err::<SearchConfig, ConfigError>(ConfigError::ConflictingFlags)
            } else {
                match (compiled, file_name) {
                    (Err(reason), _) => Err(ConfigError::InvalidPattern { reason }),
                    (Ok(_), Some(Err(reason))) => Err(ConfigError::InvalidNamePattern { reason }),
                    (Ok(pattern), Some(Ok(name))) => Ok(
                        SearchConfig {
                            pattern,
                            file_name: Some(name),
                            ignore_case,
                            name_only,
                            dirs_only,
                        },
                    ),
                    (Ok(pattern), None) => Ok(
                        SearchConfig { pattern, file_name: None, ignore_case, name_only, dirs_only },
                    ),
                }
            },
    {
        if dirs_only && !name_only {
            return Err(ConfigError::ConflictingFlags);
        }
        let pattern = match compiled {
            Ok(pattern) => pattern,
            Err(reason) => {
                return Err(ConfigError::InvalidPattern { reason });
            },
        };
        let file_name = match file_name {
            Some(Ok(name)) => Some(name),
            Some(Err(reason)) => {
                return Err(ConfigError::InvalidNamePattern { reason });
            },
            None => None,
        };
        Ok(SearchConfig { pattern, file_name, ignore_case, name_only, dirs_only })
    }

    /// Validates a search before any entry is looked at. The search is
    /// made exactly when the flags agree and both patterns compile. It
    /// then holds the patterns it was asked for, the search pattern
    /// prefixed for caseless matching where letter case is disregarded.
    /// Flags that disagree are reported first, then a search pattern that
    /// does not compile, then a file-name pattern that does not.
    pub fn new(
        pattern: &str,
        file_name: Option<&str>,
        ignore_case: bool,
        name_only: bool,
        dirs_only: bool,
    ) -> (made: Result<SearchConfig, ConfigError>)
        ensures
            made is Ok <==> flags_agree(name_only, dirs_only) && compiles(
                effective_pattern(pattern@, ignore_case),
            ) && (file_name matches Some(text) ==> compiles(text@)),
            dirs_only && !name_only ==> made == Err::<SearchConfig, ConfigError>(
                ConfigError::ConflictingFlags,
            ),
            made matches Ok(config) ==> config@ == (SearchView {
                pattern: effective_pattern(pattern@, ignore_case),
                file_name: match file_name {
                    Some(text) => Some(text@),
                    None => None,
                },
                ignore_case,
                name_only,
                dirs_only,
            }),
            made matches Err(error) ==> {
                &&& error is ConflictingFlags <==> !flags_agree(name_only, dirs_only)
                &&& error is InvalidPattern <==> flags_agree(name_only, dirs_only) && !compiles(
                    effective_pattern(pattern@, ignore_case),
                )
                &&& error is InvalidNamePattern <==> flags_agree(name_only, dirs_only) && compiles(
                    effective_pattern(pattern@, ignore_case),
                )
            },
    {
        if dirs_only && !name_only {
            return Err(ConfigError::ConflictingFlags);
        }
        let compiled = if ignore_case {
            Pattern::compile_caseless(pattern)
        } else {
            Pattern::compile(pattern)
        };
        let name = match file_name {
            Some(text) => Some(Pattern::compile(text)),
            None => None,
        };
        SearchConfig::assemble(compiled, name, ignore_case, name_only, dirs_only)
    }

    /// Tells whether the caller is to read the entry's content for
    /// [`SearchConfig::scan_entry`].
    pub fn wants_content(&self, entry: &Entry) -> (yes: bool)
        ensures
            yes == self@.reads(entry@),
    {
        if self.name_only || entry.is_dir {
            return false;
        }
        match &self.file_name {
            Some(name) => name.is_match(entry.path.as_str()),
            None => true,
        }
    }

    /// Searches the path of an entry.
    pub fn scan_name(&self, entry: &Entry) -> (outcome: ActionOutcome)
        ensures
            outcome@ == self@.name_outcome(entry@),
    {
        if entry.is_dir != self.dirs_only {
            return ActionOutcome::Skipped;
        }
        match self.pattern.find(entry.path.as_str()) {
            Some(span) => ActionOutcome::MatchFound {
                line_index: 0,
                column: span.start,
                snippet: entry.path.clone(),
            },
            None => ActionOutcome::Skipped,
        }
    }

    /// Searches the content of a file line by line. Every line that the
    /// pattern matches is reported once, at its first match. A line that is
    /// not text ends the search of the file; what was found before it
    /// stands. A file in which nothing is found is skipped.
    pub fn scan_content(&self, bytes: &[u8]) -> (outcomes: Vec<ActionOutcome>)
        ensures
            outcome_views(outcomes@) == self@.content_outcomes(bytes@),
    {
        let lines = text_lines(bytes);
        let ghost texts = string_views(lines@);
        let mut outcomes: Vec<ActionOutcome> = Vec::new();
        let mut at: usize = 0;
        assert(outcome_views(outcomes@) =~= Seq::<OutcomeView>::empty());
        while at < lines.len()
            invariant
                at <= lines.len(),
                texts == string_views(lines@),
                outcome_views(outcomes@) =~= matches_in(
                    self@.pattern,
                    texts,
                    self.ignore_case,
                    at as nat,
                ),
            decreases lines.len() - at,
        {
            let line = if self.ignore_case {
                to_lowercase(lines[at].as_str())
            } else {
                lines[at].clone()
            };
            assert(line@ == normalized(texts[at as int], self.ignore_case));
            match self.pattern.find(line.as_str()) {
                Some(span) => {
                    let ghost before = outcomes@;
                    outcomes.push(
                        ActionOutcome::MatchFound {
                            line_index: at,
                            column: span.start,
                            snippet: line,
                        },
                    );
                    assert(outcome_views(outcomes@) =~= outcome_views(before).push(
                        outcomes@.last()@,
                    ));
                },
                None => {},
            }
            at = at + 1;
        }
        if outcomes.len() == 0 {
            outcomes.push(ActionOutcome::Skipped);
            assert(outcome_views(outcomes@) =~= seq![OutcomeView::Skipped]);
        }
        outcomes
    }

    /// Carries out the search for one entry. `content` holds the bytes of
    /// the entry where the caller was asked for them and could read them.
    pub fn scan_entry(&self, entry: &Entry, content: Option<&[u8]>) -> (outcomes: Vec<
        ActionOutcome,
    >)
        ensures
            outcome_views(outcomes@) == self@.entry_outcomes(
                entry@,
                match content {
                    Some(bytes) => Some(bytes@),
                    None => None,
                },
            ),
    {
        let mut single: Vec<ActionOutcome> = Vec::new();
        if self.name_only {
            single.push(self.scan_name(entry));
            assert(outcome_views(single@) =~= seq![self@.name_outcome(entry@)]);
            return single;
        }
        if self.wants_content(entry) {
            if let Some(bytes) = content {
                return self.scan_content(bytes);
            }
        }
        single.push(ActionOutcome::Skipped);
        assert(outcome_views(single@) =~= seq![OutcomeView::Skipped]);
        single
    }
}

} // verus!
