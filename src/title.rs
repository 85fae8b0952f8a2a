//! Commit titles of the form `(<hash>) <type>[<sep>][<component>]: <summary>`.
//!
//! The grammar is searched for anywhere in a line; the first position at which
//! it matches gives the captures. `<hash>` is a run of ASCII letters and digits,
//! `<type>` is exactly three ASCII letters, `<sep>` is an optional `,` or `!`,
//! `<component>` is a run of ASCII letters and `/`, and `<summary>` is the rest
//! of the line up to the first newline (at least one character).
use vstd::prelude::*;

verus! {

/// The character classes that the grammar scans runs of.
#[derive(Clone, Copy, Debug, PartialEq, Eq, Structural)]
pub enum CharClass {
    /// `[a-zA-Z0-9]`
    Hash,
    /// `[a-zA-Z/]`
    Component,
    /// any character but a newline
    Summary,
}

pub open spec fn is_letter(c: char) -> bool {
    ('a' <= c && c <= 'z') || ('A' <= c && c <= 'Z')
}

pub open spec fn is_digit(c: char) -> bool {
    '0' <= c && c <= '9'
}

pub open spec fn is_separator(c: char) -> bool {
    c == ',' || c == '!'
}

impl CharClass {
    pub open spec fn holds(self, c: char) -> bool {
        match self {
            CharClass::Hash => is_letter(c) || is_digit(c),
            CharClass::Component => is_letter(c) || c == '/',
            CharClass::Summary => c != '\n',
        }
    }

    pub fn contains(self, c: char) -> (r: bool)
        ensures
            r == self.holds(c),
    {
        match self {
            CharClass::Hash => ('a' <= c && c <= 'z') || ('A' <= c && c <= 'Z') || ('0' <= c
                && c <= '9'),
            CharClass::Component => ('a' <= c && c <= 'z') || ('A' <= c && c <= 'Z') || c == '/',
            CharClass::Summary => c != '\n',
        }
    }
}

/// End of the longest run of characters of class `class` that starts at `from`.
pub open spec fn run_end(s: Seq<char>, from: int, class: CharClass) -> int
    decreases s.len() - from,
{
    if 0 <= from < s.len() && class.holds(s[from]) {
        run_end(s, from + 1, class)
    } else {
        from
    }
}

/// The positions that delimit the captures of a match that starts at `i`.
pub struct Bounds {
    pub hash_end: int,
    pub type_start: int,
    pub type_end: int,
    pub comp_start: int,
    pub comp_end: int,
    pub sum_start: int,
    pub sum_end: int,
}

pub open spec fn bounds_at(s: Seq<char>, i: int) -> Bounds {
    let hash_end = run_end(s, i + 1, CharClass::Hash);
    let type_start = hash_end + 2;
    let type_end = type_start + 3;
    let comp_start = if type_end < s.len() && is_separator(s[type_end]) {
        type_end + 1
    } else {
        type_end
    };
    let comp_end = run_end(s, comp_start, CharClass::Component);
    let sum_start = comp_end + 2;
    let sum_end = run_end(s, sum_start, CharClass::Summary);
    Bounds { hash_end, type_start, type_end, comp_start, comp_end, sum_start, sum_end }
}

/// The grammar matches `s` at position `i`.
pub open spec fn matches_at(s: Seq<char>, i: int) -> bool {
    let b = bounds_at(s, i);
    &&& 0 <= i < s.len()
    &&& s[i] == '('
    &&& b.hash_end > i + 1
    &&& b.hash_end + 1 < s.len()
    &&& s[b.hash_end] == ')'
    &&& s[b.hash_end + 1] == ' '
    &&& b.type_end <= s.len()
    &&& is_letter(s[b.type_start])
    &&& is_letter(s[b.type_start + 1])
    &&& is_letter(s[b.type_start + 2])
    &&& b.comp_end + 1 < s.len()
    &&& s[b.comp_end] == ':'
    &&& s[b.comp_end + 1] == ' '
    &&& b.sum_end > b.sum_start
}

/// The grammar matches somewhere in `s`.
pub open spec fn line_matches(s: Seq<char>) -> bool {
    exists|i: int| matches_at(s, i)
}

/// The five fields of a parsed commit title.
pub struct TitleView {
    pub hash: Seq<char>,
    pub prefix: Seq<char>,
    pub component: Option<Seq<char>>,
    pub summary: Seq<char>,
    pub is_breaking: bool,
}

impl TitleView {
    /// What every parsed title satisfies.
    pub open spec fn wf(self) -> bool {
        &&& self.hash.len() > 0
        &&& forall|k: int| 0 <= k < self.hash.len() ==> CharClass::Hash.holds(#[trigger] self.hash[k])
        &&& self.prefix.len() == 3
        &&& forall|k: int| 0 <= k < 3 ==> is_letter(#[trigger] self.prefix[k])
        &&& self.component matches Some(c) ==> c.len() > 0 && forall|k: int|
            0 <= k < c.len() ==> CharClass::Component.holds(#[trigger] c[k])
        &&& self.summary.len() > 0
        &&& forall|k: int|
            0 <= k < self.summary.len() ==> CharClass::Summary.holds(#[trigger] self.summary[k])
    }
}

/// The captures of the match at `i`, an empty component read as absent.
pub open spec fn title_at(s: Seq<char>, i: int) -> TitleView {
    let b = bounds_at(s, i);
    TitleView {
        hash: s.subrange(i + 1, b.hash_end),
        prefix: s.subrange(b.type_start, b.type_end),
        component: if b.comp_end > b.comp_start {
            Some(s.subrange(b.comp_start, b.comp_end))
        } else {
            None
        },
        summary: s.subrange(b.sum_start, b.sum_end),
        is_breaking: b.comp_start == b.type_end + 1 && s[b.type_end] == '!',
    }
}

/// The title at the first position from `i` on at which the grammar matches.
pub open spec fn search_from(s: Seq<char>, i: int) -> Option<TitleView>
    decreases s.len() - i,
{
    if i < 0 || i >= s.len() {
        None
    } else if matches_at(s, i) {
        Some(title_at(s, i))
    } else {
        search_from(s, i + 1)
    }
}

/// The parse of a raw log line: the captures of the first match, if any.
pub open spec fn parse_title(s: Seq<char>) -> Option<TitleView> {
    search_from(s, 0)
}

/// A parsed commit title.
#[derive(Debug)]
pub struct CommitTitle {
    hash: String,
    prefix: String,
    component: Option<String>,
    summary: String,
    is_breaking: bool,
}

impl View for CommitTitle {
    type V = TitleView;

    closed spec fn view(&self) -> TitleView {
        TitleView {
            hash: self.hash@,
            prefix: self.prefix@,
            component: match self.component {
                Some(c) => Some(c@),
                None => None,
            },
            summary: self.summary@,
            is_breaking: self.is_breaking,
        }
    }
}

/// A run stays within the line, holds only characters of its class, and stops
/// at the end of the line or at a character outside the class.
pub proof fn lemma_run_end_bounds(s: Seq<char>, from: int, class: CharClass)
    requires
        0 <= from,
    ensures
        from <= run_end(s, from, class),
        from <= s.len() ==> run_end(s, from, class) <= s.len(),
        forall|k: int| from <= k < run_end(s, from, class) ==> class.holds(#[trigger] s[k]),
        0 <= run_end(s, from, class) < s.len() ==> !class.holds(s[run_end(s, from, class)]),
    decreases s.len() - from,
{
    if 0 <= from < s.len() && class.holds(s[from]) {
        lemma_run_end_bounds(s, from + 1, class);
    }
}

/// The characters of `s`, in order.
fn chars_of(s: &str) -> (r: Vec<char>)
    ensures
        r@ == s@,
{
    let mut r: Vec<char> = Vec::new();
    for c in it: s.chars()
        invariant
            r@ == it.seq().take(it.index() as int),
    {
        r.push(c);
    }
    r
}

fn letter(c: char) -> (r: bool)
    ensures
        r == is_letter(c),
{
    ('a' <= c && c <= 'z') || ('A' <= c && c <= 'Z')
}

/// End of the longest run of `class` in `s` from `from` on.
fn scan(s: &Vec<char>, from: usize, class: CharClass) -> (e: usize)
    requires
        from <= s.len(),
    ensures
        e == run_end(s@, from as int, class),
        from <= e <= s.len(),
{
    let mut j = from;
    while j < s.len() && class.contains(s[j])
        invariant
            from <= j <= s.len(),
            run_end(s@, from as int, class) == run_end(s@, j as int, class),
        decreases s.len() - j,
    {
        j = j + 1;
    }
    j
}

/// The captures of the match at `i`, or `None` where the grammar does not match there.
fn title_at_exec(text: &str, s: &Vec<char>, i: usize) -> (r: Option<CommitTitle>)
    requires
        s@ == text@,
        i < s.len(),
    ensures
        r is Some <==> matches_at(s@, i as int),
        r matches Some(t) ==> t@ == title_at(s@, i as int),
{
    let ghost b = bounds_at(s@, i as int);
    let n = s.len();
    if s[i] != '(' {
        return None;
    }
    let hash_end = scan(s, i + 1, CharClass::Hash);
    if hash_end <= i + 1 || hash_end >= n - 1 || s[hash_end] != ')' || s[hash_end + 1] != ' ' {
        return None;
    }
    proof {
        lemma_run_end_bounds(s@, i + 1, CharClass::Hash);
    }
    let type_start = hash_end + 2;
    if n - type_start < 3 {
        return None;
    }
    let type_end = type_start + 3;
    if !letter(s[type_start]) || !letter(s[type_start + 1]) || !letter(s[type_start + 2]) {
        return None;
    }
    let comp_start = if type_end < n && (s[type_end] == ',' || s[type_end] == '!') {
        type_end + 1
    } else {
        type_end
    };
    let comp_end = scan(s, comp_start, CharClass::Component);
    proof {
        lemma_run_end_bounds(s@, comp_start as int, CharClass::Component);
    }
    if comp_end >= n - 1 || s[comp_end] != ':' || s[comp_end + 1] != ' ' {
        return None;
    }
    let sum_start = comp_end + 2;
    let sum_end = scan(s, sum_start, CharClass::Summary);
    proof {
        lemma_run_end_bounds(s@, sum_start as int, CharClass::Summary);
    }
    if sum_end <= sum_start {
        return None;
    }
    let hash = String::from_str(text.substring_char(i + 1, hash_end));
    let prefix = String::from_str(text.substring_char(type_start, type_end));
    let component = if comp_end > comp_start {
        Some(String::from_str(text.substring_char(comp_start, comp_end)))
    } else {
        None
    };
    let summary = String::from_str(text.substring_char(sum_start, sum_end));
    let is_breaking = comp_start == type_end + 1 && s[type_end] == '!';
    let t = CommitTitle { hash, prefix, component, summary, is_breaking };
    assert(t@ == title_at(s@, i as int));
    Some(t)
}

impl CommitTitle {
    /// Parses a raw log line; `None` where the grammar matches nowhere in it.
    pub fn new(title: &str) -> (r: Option<CommitTitle>)
        ensures
            r is Some <==> parse_title(title@) is Some,
            r matches Some(t) ==> Some(t@) == parse_title(title@),
    {
        let s = chars_of(title);
        let n = s.len();
        let mut i: usize = 0;
        while i < n
            invariant
                s@ == title@,
                n == s.len(),
                i <= n,
                parse_title(title@) == search_from(title@, i as int),
            decreases n - i,
        {
            let r = title_at_exec(title, &s, i);
            if r.is_some() {
                return r;
            }
            i = i + 1;
        }
        None
    }
}


/// Where the search from `j` on finds a title, the position of that first match.
proof fn lemma_search_from(s: Seq<char>, j: int) -> (i: int)
    requires
        0 <= j,
    ensures
        search_from(s, j) is None ==> forall|k: int| j <= k ==> !matches_at(s, k),
        search_from(s, j) matches Some(t) ==> {
            &&& j <= i
            &&& matches_at(s, i)
            &&& t == title_at(s, i)
            &&& forall|k: int| j <= k < i ==> !matches_at(s, k)
        },
    decreases s.len() - j,
{
    if j >= s.len() {
        j
    } else if matches_at(s, j) {
        j
    } else {
        lemma_search_from(s, j + 1)
    }
}

/// A line yields no title exactly when the grammar matches nowhere in it.
pub proof fn lemma_no_title_iff_no_match(s: Seq<char>)
    ensures
        parse_title(s) is None <==> !line_matches(s),
{
    let i = lemma_search_from(s, 0);
    if parse_title(s) is None {
        assert forall|k: int| !matches_at(s, k) by {
            if 0 <= k {
                assert(!matches_at(s, k));
            }
        }
    }
}

/// A line without `(` yields no title.
pub proof fn lemma_no_title_without_paren(s: Seq<char>)
    requires
        forall|k: int| 0 <= k < s.len() ==> s[k] != '(',
    ensures
        parse_title(s) is None,
{
    lemma_no_title_iff_no_match(s);
}

/// A line without `: ` yields no title.
pub proof fn lemma_no_title_without_colon(s: Seq<char>)
    requires
        forall|k: int| 0 <= k < s.len() - 1 ==> !(s[k] == ':' && #[trigger] s[k + 1] == ' '),
    ensures
        parse_title(s) is None,
{
    lemma_no_title_iff_no_match(s);
    if line_matches(s) {
        let i = choose|i: int| matches_at(s, i);
        let b = bounds_at(s, i);
        lemma_run_end_bounds(s, i + 1, CharClass::Hash);
        lemma_run_end_bounds(s, b.comp_start, CharClass::Component);
        assert(s[b.comp_end + 1] == ' ');
    }
}

/// The text that a title stands for, with separator `sep`; an absent
/// component is empty text.
pub open spec fn title_text(t: TitleView, sep: Seq<char>) -> Seq<char> {
    let comp = match t.component {
        Some(c) => c,
        None => Seq::<char>::empty(),
    };
    seq!['('] + t.hash + seq![')', ' '] + t.prefix + sep + comp + seq![':', ' '] + t.summary
}

/// `s` holds the text of `t` with separator `sep` at `i`, the first position at
/// which the grammar matches; the summary runs to a newline or the end of `s`;
/// the separator is empty, `,` or `!`, and `!` exactly where `t` is breaking.
pub open spec fn captured_at(s: Seq<char>, i: int, t: TitleView, sep: Seq<char>) -> bool {
    let whole = title_text(t, sep);
    &&& 0 <= i
    &&& i + whole.len() <= s.len()
    &&& s.subrange(i, i + whole.len()) == whole
    &&& (i + whole.len() == s.len() || s[i + whole.len()] == '\n')
    &&& (sep == Seq::<char>::empty() || sep == seq![','] || sep == seq!['!'])
    &&& (t.is_breaking <==> sep == seq!['!'])
    &&& forall|k: int| 0 <= k < i ==> !matches_at(s, k)
}

/// A title is parsed from a line only where the line holds, at the first
/// position at which the grammar matches, `(` hash `) ` type, then an empty,
/// `,` or `!` separator, the component (empty where it is absent), `: ` and the
/// summary, which runs to a newline or the end of the line. The breaking flag
/// is set exactly where the separator is `!`, and every field has the shape
/// that the grammar gives it.
pub proof fn lemma_title_is_captures(s: Seq<char>)
    requires
        parse_title(s) is Some,
    ensures
        parse_title(s)->0.wf(),
        exists|i: int, sep: Seq<char>| #[trigger] captured_at(s, i, parse_title(s)->0, sep),
{
    let i = lemma_search_from(s, 0);
    let t = parse_title(s)->0;
    let b = bounds_at(s, i);
    lemma_run_end_bounds(s, i + 1, CharClass::Hash);
    lemma_run_end_bounds(s, b.comp_start, CharClass::Component);
    lemma_run_end_bounds(s, b.sum_start, CharClass::Summary);
    let comp = match t.component {
        Some(c) => c,
        None => Seq::<char>::empty(),
    };
    let sep = s.subrange(b.type_end, b.comp_start);
    assert(comp =~= s.subrange(b.comp_start, b.comp_end));
    if b.comp_start == b.type_end + 1 {
        if s[b.type_end] == '!' {
            assert(sep =~= seq!['!']);
        } else {
            assert(sep =~= seq![',']);
        }
    } else {
        assert(sep =~= Seq::<char>::empty());
    }
    let whole = seq!['('] + t.hash + seq![')', ' '] + t.prefix + sep + comp + seq![':', ' ']
        + t.summary;
    assert(whole.len() == b.sum_end - i);
    assert(s.subrange(i, i + whole.len()) =~= whole);
    assert(t.wf());
    assert(whole == title_text(t, sep));
    assert(i + whole.len() == s.len() || s[i + whole.len()] == '\n');
    assert(seq![','] != seq!['!']) by {
        assert(seq![','][0] != seq!['!'][0]);
    }
    assert(Seq::<char>::empty() != seq!['!']) by {
        assert(seq!['!'].len() == 1);
    }
    assert(captured_at(s, i, t, sep));
}

impl CommitTitle {
    pub fn hash(&self) -> (r: &str)
        ensures
            r@ == self@.hash,
    {
        self.hash.as_str()
    }

    pub fn prefix(&self) -> (r: &str)
        ensures
            r@ == self@.prefix,
    {
        self.prefix.as_str()
    }

    pub fn component(&self) -> (r: Option<&str>)
        ensures
            r is None <==> self@.component is None,
            r matches Some(c) ==> self@.component == Some(c@),
    {
        match &self.component {
            Some(c) => Some(c.as_str()),
            None => None,
        }
    }

    pub fn summary(&self) -> (r: &str)
        ensures
            r@ == self@.summary,
    {
        self.summary.as_str()
    }

    pub fn is_breaking(&self) -> (r: bool)
        ensures
            r == self@.is_breaking,
    {
        self.is_breaking
    }
}

/// The description of a title: its five fields, one per line, with
/// `No Component` where it has none.
pub open spec fn info_text(t: TitleView) -> Seq<char> {
    "Commit Information:\nHash: "@ + t.hash + "\nType: "@ + t.prefix + "\nComponent: "@ + match t.component {
        Some(c) => c,
        None => "No Component"@,
    } + "\nSummary: "@ + t.summary + "\nIs Breaking Change: "@ + if t.is_breaking {
        "true"@
    } else {
        "false"@
    }
}

impl CommitTitle {
    /// The description of this title, field by field.
    pub fn info(&self) -> (r: String)
        ensures
            r@ == info_text(self@),
    {
        let mut out = String::from_str("Commit Information:\nHash: ");
        out.append(self.hash.as_str());
        out.append("\nType: ");
        out.append(self.prefix.as_str());
        out.append("\nComponent: ");
        match &self.component {
            Some(c) => out.append(c.as_str()),
            None => out.append("No Component"),
        }
        out.append("\nSummary: ");
        out.append(self.summary.as_str());
        out.append("\nIs Breaking Change: ");
        if self.is_breaking {
            out.append("true");
        } else {
            out.append("false");
        }
        out
    }
}

} // verus!
