//! Sorting parsed commit titles into changelog sections, and rendering them.
use crate::cli::Args;
use crate::title::{parse_title, CommitTitle, TitleView};
use vstd::prelude::*;

verus! {

/// The section that a commit belongs to.
#[derive(Clone, Copy, Debug, PartialEq, Eq, Structural)]
pub enum Category {
    Breaking,
    Feature,
    Fix,
    Change,
    Uncategorized,
}

/// A breaking change wins over its type; then `new`, `fix` and `rwt` pick a
/// section, and any other type is left uncategorized.
pub open spec fn category_of(t: TitleView) -> Category {
    if t.is_breaking {
        Category::Breaking
    } else if t.prefix == seq!['n', 'e', 'w'] {
        Category::Feature
    } else if t.prefix == seq!['f', 'i', 'x'] {
        Category::Fix
    } else if t.prefix == seq!['r', 'w', 't'] {
        Category::Change
    } else {
        Category::Uncategorized
    }
}

/// The section of a raw line: uncategorized where it yields no title.
pub open spec fn line_category(line: Seq<char>) -> Category {
    match parse_title(line) {
        Some(t) => category_of(t),
        None => Category::Uncategorized,
    }
}

/// `s` is exactly the three characters `a`, `b`, `c`.
fn is_code(s: &str, a: char, b: char, c: char) -> (r: bool)
    ensures
        r == (s@ == seq![a, b, c]),
{
    if s.unicode_len() != 3 {
        assert(s@.len() != seq![a, b, c].len());
        return false;
    }
    let r = s.get_char(0) == a && s.get_char(1) == b && s.get_char(2) == c;
    if r {
        assert(s@ =~= seq![a, b, c]);
    } else {
        assert(s@ != seq![a, b, c]) by {
            if s@ == seq![a, b, c] {
                assert(s@[0] == a && s@[1] == b && s@[2] == c);
            }
        }
    }
    r
}

/// The section that `t` belongs to.
pub fn classify(t: &CommitTitle) -> (c: Category)
    ensures
        c == category_of(t@),
{
    if t.is_breaking() {
        Category::Breaking
    } else if is_code(t.prefix(), 'n', 'e', 'w') {
        Category::Feature
    } else if is_code(t.prefix(), 'f', 'i', 'x') {
        Category::Fix
    } else if is_code(t.prefix(), 'r', 'w', 't') {
        Category::Change
    } else {
        Category::Uncategorized
    }
}

/// The line that one commit renders as: `* <component>: <summary>`, or
/// `* <summary>` without a component, each ended by a newline.
pub open spec fn entry_line(t: TitleView) -> Seq<char> {
    match t.component {
        Some(c) => seq!['*', ' '] + c + seq![':', ' '] + t.summary + seq!['\n'],
        None => seq!['*', ' '] + t.summary + seq!['\n'],
    }
}

/// The lines of `ts`, in order.
pub open spec fn entry_lines(ts: Seq<TitleView>) -> Seq<char>
    decreases ts.len(),
{
    if ts.len() == 0 {
        Seq::empty()
    } else {
        entry_lines(ts.drop_last()) + entry_line(ts.last())
    }
}

/// A section's text: its lines, or `Null` where it is empty.
pub open spec fn render_bucket(ts: Seq<TitleView>) -> Seq<char> {
    if ts.len() == 0 {
        seq!['N', 'u', 'l', 'l']
    } else {
        entry_lines(ts)
    }
}

/// The commits of one section, in the order they were added.
pub struct CommitCollection {
    store: Vec<CommitTitle>,
}

impl View for CommitCollection {
    type V = Seq<TitleView>;

    closed spec fn view(&self) -> Seq<TitleView> {
        self.store@.map_values(|t: CommitTitle| t@)
    }
}

impl CommitCollection {
    pub fn new() -> (r: CommitCollection)
        ensures
            r@ == Seq::<TitleView>::empty(),
    {
        let r = CommitCollection { store: Vec::new() };
        assert(r@ =~= Seq::<TitleView>::empty());
        r
    }

    pub fn push(&mut self, commit: CommitTitle)
        ensures
            final(self)@ == old(self)@.push(commit@),
    {
        let ghost v = commit@;
        self.store.push(commit);
        assert(self@ =~= old(self)@.push(v));
    }

    pub fn len(&self) -> (r: usize)
        ensures
            r == self@.len(),
    {
        self.store.len()
    }

    pub fn is_empty(&self) -> (r: bool)
        ensures
            r == (self@.len() == 0),
    {
        self.store.len() == 0
    }

    pub fn get(&self, i: usize) -> (r: &CommitTitle)
        requires
            i < self@.len(),
        ensures
            r@ == self@[i as int],
    {
        &self.store[i]
    }

    /// The section's text: one line per commit, or `Null` where there is none.
    pub fn render(&self) -> (r: String)
        ensures
            r@ == render_bucket(self@),
    {
        if self.store.len() == 0 {
            proof {
                reveal_strlit("Null");
            }
            return String::from_str("Null");
        }
        let mut out = String::new();
        let mut i: usize = 0;
        while i < self.store.len()
            invariant
                i <= self.store.len(),
                out@ == entry_lines(self@.take(i as int)),
            decreases self.store.len() - i,
        {
            let t = &self.store[i];
            proof {
                reveal_strlit("* ");
                reveal_strlit(": ");
                reveal_strlit("\n");
            }
            out.append("* ");
            match t.component() {
                Some(c) => {
                    out.append(c);
                    out.append(": ");
                },
                None => {},
            }
            out.append(t.summary());
            out.append("\n");
            assert(self@.take(i + 1).drop_last() =~= self@.take(i as int));
            assert(out@ =~= entry_lines(self@.take(i as int)) + entry_line(self@[i as int]));
            i = i + 1;
        }
        assert(self@.take(i as int) =~= self@);
        out
    }
}

/// The contents of a report: the four sections and the raw lines left over.
pub struct ReportView {
    pub breaking: Seq<TitleView>,
    pub features: Seq<TitleView>,
    pub fixes: Seq<TitleView>,
    pub changes: Seq<TitleView>,
    pub uncategorized: Seq<Seq<char>>,
}

pub open spec fn empty_report() -> ReportView {
    ReportView {
        breaking: Seq::empty(),
        features: Seq::empty(),
        fixes: Seq::empty(),
        changes: Seq::empty(),
        uncategorized: Seq::empty(),
    }
}

/// `r` after one more raw line: its title goes to the end of its section, and
/// a line that yields no title, or one of no known type, is kept as it is.
pub open spec fn add_line(r: ReportView, line: Seq<char>) -> ReportView {
    match parse_title(line) {
        None => ReportView { uncategorized: r.uncategorized.push(line), ..r },
        Some(t) => match category_of(t) {
            Category::Breaking => ReportView { breaking: r.breaking.push(t), ..r },
            Category::Feature => ReportView { features: r.features.push(t), ..r },
            Category::Fix => ReportView { fixes: r.fixes.push(t), ..r },
            Category::Change => ReportView { changes: r.changes.push(t), ..r },
            Category::Uncategorized => ReportView { uncategorized: r.uncategorized.push(line), ..r },
        },
    }
}

/// The report of a log, built by one pass over its lines in order.
pub open spec fn report_of(lines: Seq<Seq<char>>) -> ReportView
    decreases lines.len(),
{
    if lines.len() == 0 {
        empty_report()
    } else {
        add_line(report_of(lines.drop_last()), lines.last())
    }
}

pub open spec fn text_of_lines(lines: Seq<String>) -> Seq<Seq<char>> {
    lines.map_values(|l: String| l@)
}

/// The changelog document of a report, under a header of `range` and `description`.
pub open spec fn changelog_text(range: Seq<char>, description: Seq<char>, r: ReportView) -> Seq<
    char,
> {
    range + "\n==========\n"@ + description + "\n\n\nBreaking Changes\n----------------\n"@
        + render_bucket(r.breaking) + "\n\nFeatures\n--------\n"@ + render_bucket(r.features)
        + "\n\nFix\n---\n"@ + render_bucket(r.fixes) + "\n\nChanges\n--------\n"@
        + render_bucket(r.changes) + "\n"@
}

/// The sections of one changelog.
pub struct Report {
    breaking: CommitCollection,
    features: CommitCollection,
    fixes: CommitCollection,
    changes: CommitCollection,
    uncategorized: Vec<String>,
}

impl View for Report {
    type V = ReportView;

    closed spec fn view(&self) -> ReportView {
        ReportView {
            breaking: self.breaking@,
            features: self.features@,
            fixes: self.fixes@,
            changes: self.changes@,
            uncategorized: text_of_lines(self.uncategorized@),
        }
    }
}

impl Report {
    pub fn new() -> (r: Report)
        ensures
            r@ == empty_report(),
    {
        let r = Report {
            breaking: CommitCollection::new(),
            features: CommitCollection::new(),
            fixes: CommitCollection::new(),
            changes: CommitCollection::new(),
            uncategorized: Vec::new(),
        };
        assert(r@.uncategorized =~= Seq::<Seq<char>>::empty());
        r
    }

    /// Files one raw log line under its section.
    pub fn add_line(&mut self, line: &str)
        ensures
            final(self)@ == add_line(old(self)@, line@),
    {
        match CommitTitle::new(line) {
            None => {
                self.uncategorized.push(String::from_str(line));
                assert(self@.uncategorized =~= old(self)@.uncategorized.push(line@));
            },
            Some(t) => match classify(&t) {
                Category::Breaking => self.breaking.push(t),
                Category::Feature => self.features.push(t),
                Category::Fix => self.fixes.push(t),
                Category::Change => self.changes.push(t),
                Category::Uncategorized => {
                    self.uncategorized.push(String::from_str(line));
                    assert(self@.uncategorized =~= old(self)@.uncategorized.push(line@));
                },
            },
        }
    }

    /// The report of a log, given as its lines in order.
    pub fn from_lines(lines: &Vec<String>) -> (r: Report)
        ensures
            r@ == report_of(text_of_lines(lines@)),
    {
        let mut r = Report::new();
        let mut i: usize = 0;
        while i < lines.len()
            invariant
                i <= lines.len(),
                r@ == report_of(text_of_lines(lines@.take(i as int))),
            decreases lines.len() - i,
        {
            r.add_line(lines[i].as_str());
            assert(text_of_lines(lines@.take(i + 1)).drop_last() =~= text_of_lines(
                lines@.take(i as int),
            ));
            assert(text_of_lines(lines@.take(i + 1)).last() == lines@[i as int]@);
            i = i + 1;
        }
        assert(lines@.take(i as int) =~= lines@);
        r
    }

    pub fn breaking(&self) -> (r: &CommitCollection)
        ensures
            r@ == self@.breaking,
    {
        &self.breaking
    }

    pub fn features(&self) -> (r: &CommitCollection)
        ensures
            r@ == self@.features,
    {
        &self.features
    }

    pub fn fixes(&self) -> (r: &CommitCollection)
        ensures
            r@ == self@.fixes,
    {
        &self.fixes
    }

    pub fn changes(&self) -> (r: &CommitCollection)
        ensures
            r@ == self@.changes,
    {
        &self.changes
    }

    pub fn uncategorized(&self) -> (r: &Vec<String>)
        ensures
            text_of_lines(r@) == self@.uncategorized,
    {
        &self.uncategorized
    }

    /// The changelog document, under a header of `range` and `description`.
    pub fn render(&self, range: &str, description: &str) -> (r: String)
        ensures
            r@ == changelog_text(range@, description@, self@),
    {
        let mut out = String::from_str(range);
        out.append("\n==========\n");
        out.append(description);
        out.append("\n\n\nBreaking Changes\n----------------\n");
        out.append(self.breaking.render().as_str());
        out.append("\n\nFeatures\n--------\n");
        out.append(self.features.render().as_str());
        out.append("\n\nFix\n---\n");
        out.append(self.fixes.render().as_str());
        out.append("\n\nChanges\n--------\n");
        out.append(self.changes.render().as_str());
        out.append("\n");
        out
    }
}

/// Adding a line keeps every section's earlier entries in place.
proof fn lemma_add_line_extends(r: ReportView, line: Seq<char>)
    ensures
        ({
            let n = add_line(r, line);
            &&& r.breaking.len() <= n.breaking.len()
            &&& r.features.len() <= n.features.len()
            &&& r.fixes.len() <= n.fixes.len()
            &&& r.changes.len() <= n.changes.len()
            &&& r.uncategorized.len() <= n.uncategorized.len()
            &&& forall|j: int| 0 <= j < r.breaking.len() ==> n.breaking[j] == r.breaking[j]
            &&& forall|j: int| 0 <= j < r.features.len() ==> n.features[j] == r.features[j]
            &&& forall|j: int| 0 <= j < r.fixes.len() ==> n.fixes[j] == r.fixes[j]
            &&& forall|j: int| 0 <= j < r.changes.len() ==> n.changes[j] == r.changes[j]
            &&& forall|j: int|
                0 <= j < r.uncategorized.len() ==> n.uncategorized[j] == r.uncategorized[j]
        }),
{
}

/// Each section holds only titles of its own category and each leftover line is
/// uncategorized; a breaking line's title and an uncategorized line both appear.
proof fn lemma_report_sections(lines: Seq<Seq<char>>)
    ensures
        ({
            let r = report_of(lines);
            &&& forall|j: int|
                0 <= j < r.breaking.len() ==> category_of(#[trigger] r.breaking[j])
                    == Category::Breaking
            &&& forall|j: int|
                0 <= j < r.features.len() ==> category_of(#[trigger] r.features[j])
                    == Category::Feature
            &&& forall|j: int|
                0 <= j < r.fixes.len() ==> category_of(#[trigger] r.fixes[j]) == Category::Fix
            &&& forall|j: int|
                0 <= j < r.changes.len() ==> category_of(#[trigger] r.changes[j])
                    == Category::Change
            &&& forall|j: int|
                0 <= j < r.uncategorized.len() ==> line_category(#[trigger] r.uncategorized[j])
                    == Category::Uncategorized
            &&& forall|k: int|
                0 <= k < lines.len() && line_category(#[trigger] lines[k]) == Category::Breaking
                    ==> r.breaking.contains(parse_title(lines[k])->0)
            &&& forall|k: int|
                0 <= k < lines.len() && line_category(#[trigger] lines[k])
                    == Category::Uncategorized ==> r.uncategorized.contains(lines[k])
        }),
    decreases lines.len(),
{
    if lines.len() > 0 {
        let prev = lines.drop_last();
        let last = lines.last();
        lemma_report_sections(prev);
        let r0 = report_of(prev);
        let r = report_of(lines);
        lemma_add_line_extends(r0, last);
        assert forall|k: int|
            0 <= k < lines.len() && line_category(#[trigger] lines[k])
                == Category::Breaking implies r.breaking.contains(parse_title(lines[k])->0) by {
            if k < lines.len() - 1 {
                assert(lines[k] == prev[k]);
                let j = choose|j: int|
                    0 <= j < r0.breaking.len() && r0.breaking[j] == parse_title(prev[k])->0;
                assert(r.breaking[j] == r0.breaking[j]);
            } else {
                assert(r.breaking[r.breaking.len() - 1] == parse_title(last)->0);
            }
        }
        assert forall|k: int|
            0 <= k < lines.len() && line_category(#[trigger] lines[k])
                == Category::Uncategorized implies r.uncategorized.contains(lines[k]) by {
            if k < lines.len() - 1 {
                assert(lines[k] == prev[k]);
                let j = choose|j: int| 0 <= j < r0.uncategorized.len() && r0.uncategorized[j] == prev[k];
                assert(r.uncategorized[j] == r0.uncategorized[j]);
            } else {
                assert(r.uncategorized[r.uncategorized.len() - 1] == last);
            }
        }
    }
}

/// A title marked breaking lands among the breaking changes, whatever its type,
/// and nowhere else: in no other section, and its line is not left uncategorized.
pub proof fn lemma_breaking_takes_precedence(lines: Seq<Seq<char>>, k: int)
    requires
        0 <= k < lines.len(),
        parse_title(lines[k]) matches Some(t) && t.is_breaking,
    ensures
        ({
            let r = report_of(lines);
            let t = parse_title(lines[k])->0;
            &&& r.breaking.contains(t)
            &&& !r.features.contains(t)
            &&& !r.fixes.contains(t)
            &&& !r.changes.contains(t)
            &&& !r.uncategorized.contains(lines[k])
        }),
{
    lemma_report_sections(lines);
    assert(line_category(lines[k]) == Category::Breaking);
}

/// A title that is not breaking and whose type is none of `new`, `fix` and `rwt`
/// is kept among the uncategorized as its raw line, and appears in no section.
pub proof fn lemma_unknown_type_kept_raw(lines: Seq<Seq<char>>, k: int)
    requires
        0 <= k < lines.len(),
        parse_title(lines[k]) matches Some(t) && !t.is_breaking && t.prefix != seq!['n', 'e', 'w']
            && t.prefix != seq!['f', 'i', 'x'] && t.prefix != seq!['r', 'w', 't'],
    ensures
        ({
            let r = report_of(lines);
            let t = parse_title(lines[k])->0;
            &&& r.uncategorized.contains(lines[k])
            &&& !r.breaking.contains(t)
            &&& !r.features.contains(t)
            &&& !r.fixes.contains(t)
            &&& !r.changes.contains(t)
        }),
{
    lemma_report_sections(lines);
    assert(line_category(lines[k]) == Category::Uncategorized);
}

/// The lines of `a` followed by `b` are those of `a`, then those of `b`.
proof fn lemma_entry_lines_append(a: Seq<TitleView>, b: Seq<TitleView>)
    ensures
        entry_lines(a + b) == entry_lines(a) + entry_lines(b),
    decreases b.len(),
{
    if b.len() == 0 {
        assert(a + b =~= a);
        assert(entry_lines(a) + entry_lines(b) =~= entry_lines(a));
    } else {
        lemma_entry_lines_append(a, b.drop_last());
        assert((a + b).drop_last() =~= a + b.drop_last());
        assert((a + b).last() == b.last());
        assert(entry_lines(a + b) =~= entry_lines(a) + entry_lines(b));
    }
}

/// The line of the `j`-th title stands after the lines of the titles before it
/// and before the lines of those after it.
pub proof fn lemma_entry_line_position(ts: Seq<TitleView>, j: int)
    requires
        0 <= j < ts.len(),
    ensures
        entry_lines(ts) == entry_lines(ts.take(j)) + entry_line(ts[j]) + entry_lines(
            ts.skip(j + 1),
        ),
{
    assert(ts =~= ts.take(j + 1) + ts.skip(j + 1));
    lemma_entry_lines_append(ts.take(j + 1), ts.skip(j + 1));
    assert(ts.take(j + 1).drop_last() =~= ts.take(j));
}

/// Where every line of a log is a feature (a title that is not breaking, of
/// type `new`), the features are
/// those titles in the order of their lines, they render as one line each in
/// that order, and every other section is empty.
pub proof fn lemma_features_keep_order(lines: Seq<Seq<char>>)
    requires
        forall|k: int| 0 <= k < lines.len() ==> line_category(#[trigger] lines[k]) == Category::Feature,
    ensures
        ({
            let r = report_of(lines);
            let ts = lines.map_values(|l: Seq<char>| parse_title(l)->0);
            &&& r.features == ts
            &&& lines.len() > 0 ==> render_bucket(r.features) == entry_lines(ts)
            &&& forall|j: int|
                0 <= j < ts.len() ==> entry_lines(ts) == entry_lines(ts.take(j)) + entry_line(
                    #[trigger] ts[j],
                ) + entry_lines(ts.skip(j + 1))
            &&& r.breaking.len() == 0
            &&& r.fixes.len() == 0
            &&& r.changes.len() == 0
            &&& r.uncategorized.len() == 0
        }),
    decreases lines.len(),
{
    let ts = lines.map_values(|l: Seq<char>| parse_title(l)->0);
    if lines.len() > 0 {
        let prev = lines.drop_last();
        assert forall|k: int| 0 <= k < prev.len() implies line_category(#[trigger] prev[k])
            == Category::Feature by {
            assert(prev[k] == lines[k]);
        }
        lemma_features_keep_order(prev);
        assert(parse_title(lines[lines.len() - 1]) is Some);
        assert(ts =~= prev.map_values(|l: Seq<char>| parse_title(l)->0).push(
            parse_title(lines.last())->0,
        ));
    } else {
        assert(ts =~= Seq::<TitleView>::empty());
    }
    assert forall|j: int| 0 <= j < ts.len() implies entry_lines(ts) == entry_lines(ts.take(j))
        + entry_line(#[trigger] ts[j]) + entry_lines(ts.skip(j + 1)) by {
        lemma_entry_line_position(ts, j);
    }
}

/// A section with no commits renders as `Null`.
pub proof fn lemma_empty_bucket_renders_null()
    ensures
        render_bucket(Seq::empty()) == "Null"@,
{
    reveal_strlit("Null");
}

/// The changelog of a log, given as its lines in order, under the range and
/// description of `args`.
pub fn changelog(args: &Args, lines: &Vec<String>) -> (r: String)
    ensures
        r@ == changelog_text(
            args@.range,
            args@.description_or_empty(),
            report_of(text_of_lines(lines@)),
        ),
{
    let report = Report::from_lines(lines);
    report.render(args.range(), args.description_text())
}

} // verus!
