//! Local validation of generated Markdown: empty documents, heading
//! structure, image and link syntax, code fences and table shape.

use vstd::prelude::*;
use vstd::string::StrSliceExecFns;
use crate::markdown::MarkdownError;
use crate::text::{decimal, decimal_string, lines, lines_of, texts, trim_of, trimmed};

verus! {

/// Where validation requests would go.
#[derive(Debug, Clone, PartialEq, Eq)]
pub enum ValidationProvider {
    Anthropic { api_key: String },
    OpenAI { api_key: String },
    LocalLLM { endpoint: String },
}

impl ValidationProvider {
    pub fn anthropic(api_key: &str) -> (r: ValidationProvider)
        ensures
            r matches ValidationProvider::Anthropic { api_key: k } && k@ == api_key@,
    {
        ValidationProvider::Anthropic { api_key: api_key.to_owned() }
    }

    pub fn openai(api_key: &str) -> (r: ValidationProvider)
        ensures
            r matches ValidationProvider::OpenAI { api_key: k } && k@ == api_key@,
    {
        ValidationProvider::OpenAI { api_key: api_key.to_owned() }
    }

    pub fn local(endpoint: &str) -> (r: ValidationProvider)
        ensures
            r matches ValidationProvider::LocalLLM { endpoint: e } && e@ == endpoint@,
    {
        ValidationProvider::LocalLLM { endpoint: endpoint.to_owned() }
    }

    pub fn name(&self) -> (r: &'static str)
        ensures
            r@ == match self {
                ValidationProvider::Anthropic { .. } => "anthropic"@,
                ValidationProvider::OpenAI { .. } => "openai"@,
                ValidationProvider::LocalLLM { .. } => "local"@,
            },
    {
        match self {
            ValidationProvider::Anthropic { .. } => "anthropic",
            ValidationProvider::OpenAI { .. } => "openai",
            ValidationProvider::LocalLLM { .. } => "local",
        }
    }
}

#[derive(Debug, Clone, Copy, PartialEq, Eq, Structural)]
pub enum IssueSeverity {
    Info,
    Warning,
    Error,
}

/// One problem found in a document.
#[derive(Debug, Clone)]
pub struct ValidationIssue {
    pub severity: IssueSeverity,
    pub description: String,
    pub location: Option<String>,
    pub fix: Option<String>,
}

/// The issue has this severity, description, location and fix text.
pub open spec fn issue_is(
    i: ValidationIssue,
    severity: IssueSeverity,
    description: Seq<char>,
    location: Option<Seq<char>>,
    fix: Option<Seq<char>>,
) -> bool {
    &&& i.severity == severity
    &&& i.description@ == description
    &&& match location {
        Some(l) => i.location is Some && i.location->0@ == l,
        None => i.location is None,
    }
    &&& match fix {
        Some(f) => i.fix is Some && i.fix->0@ == f,
        None => i.fix is None,
    }
}

impl ValidationIssue {
    pub fn new(severity: IssueSeverity, description: &str) -> (r: ValidationIssue)
        ensures
            issue_is(r, severity, description@, None, None),
    {
        ValidationIssue { severity, description: description.to_owned(), location: None, fix: None }
    }

    pub fn with_location(self, location: &str) -> (r: ValidationIssue)
        ensures
            r.severity == self.severity && r.description == self.description && r.fix == self.fix,
            r.location is Some && r.location->0@ == location@,
    {
        let mut s = self;
        s.location = Some(location.to_owned());
        s
    }

    pub fn with_fix(self, fix: &str) -> (r: ValidationIssue)
        ensures
            r.severity == self.severity && r.description == self.description && r.location == self.location,
            r.fix is Some && r.fix->0@ == fix@,
    {
        let mut s = self;
        s.fix = Some(fix.to_owned());
        s
    }
}

/// The outcome of validation; confidence in whole percent.
#[derive(Debug, Clone)]
pub struct ValidationResult {
    pub valid: bool,
    pub confidence_percent: u32,
    pub issues: Vec<ValidationIssue>,
    pub suggestions: Vec<String>,
    pub provider: String,
}

pub open spec fn line_label(k: int) -> Seq<char> {
    "Line "@ + decimal((k + 1) as nat)
}

/// Number of leading `#` characters.
pub open spec fn leading_hashes(t: Seq<char>) -> nat
    decreases t.len(),
{
    if t.len() > 0 && t[0] == '#' { 1 + leading_hashes(t.drop_first()) } else { 0 }
}

/// The level of a Markdown heading line: one to six `#` after trimming,
/// followed by a space.
pub open spec fn heading_level(line: Seq<char>) -> Option<u8> {
    let t = trim_of(line);
    let l = leading_hashes(t);
    if 1 <= l <= 6 && l < t.len() && t[l as int] == ' ' { Some(l as u8) } else { None }
}

pub open spec fn occurs_at(s: Seq<char>, p: Seq<char>, i: int) -> bool {
    0 <= i && i + p.len() <= s.len() && s.subrange(i, i + p.len()) == p
}

pub open spec fn contains_text(s: Seq<char>, p: Seq<char>) -> bool {
    exists|i: int| occurs_at(s, p, i)
}

/// Non-overlapping occurrences of `p` in `s[i..]`, scanning left to right.
pub open spec fn count_from(s: Seq<char>, p: Seq<char>, i: int) -> nat
    decreases s.len() - i,
{
    if p.len() == 0 || i < 0 || i + p.len() > s.len() {
        0
    } else if occurs_at(s, p, i) {
        1 + count_from(s, p, i + p.len())
    } else {
        count_from(s, p, i + 1)
    }
}

pub open spec fn count_char(s: Seq<char>, c: char) -> nat
    decreases s.len(),
{
    if s.len() == 0 { 0 } else { count_char(s.drop_last(), c) + if s.last() == c { 1nat } else { 0nat } }
}

fn chars_vec(s: &str) -> (r: Vec<char>)
    ensures
        r@ == s@,
{
    let n = s.unicode_len();
    let mut out: Vec<char> = Vec::new();
    let mut i: usize = 0;
    while i < n
        invariant
            n == s@.len(),
            i <= n,
            out@ == s@.take(i as int),
        decreases n - i,
    {
        out.push(s.get_char(i));
        assert(s@.take(i as int + 1) =~= s@.take(i as int).push(s@[i as int]));
        i = i + 1;
    }
    assert(s@.take(n as int) =~= s@);
    out
}

fn occurs_at_exec(s: &Vec<char>, p: &Vec<char>, i: usize) -> (r: bool)
    ensures
        r == occurs_at(s@, p@, i as int),
{
    let n = s.len();
    if i > n || p.len() > n - i {
        return false;
    }
    let mut k: usize = 0;
    while k < p.len()
        invariant
            n == s@.len(),
            i + p@.len() <= s@.len(),
            k <= p@.len(),
            forall|j: int| 0 <= j < k ==> s@[i + j] == p@[j],
        decreases p.len() - k,
    {
        if s[i + k] != p[k] {
            assert(s@.subrange(i as int, i + p@.len())[k as int] != p@[k as int]);
            return false;
        }
        k = k + 1;
    }
    assert(s@.subrange(i as int, i + p@.len()) =~= p@);
    true
}

/// Whether `p` occurs in `s`.
pub fn contains_str(s: &str, p: &str) -> (r: bool)
    ensures
        r == contains_text(s@, p@),
{
    let sv = chars_vec(s);
    let pv = chars_vec(p);
    if pv.len() > sv.len() {
        return false;
    }
    let last = sv.len() - pv.len();
    let mut i: usize = 0;
    while i <= last
        invariant
            sv@ == s@,
            pv@ == p@,
            last == s@.len() - p@.len(),
            i <= last + 1,
            forall|j: int| 0 <= j < i ==> !occurs_at(s@, p@, j),
        ensures
            forall|j: int| 0 <= j <= last ==> !occurs_at(s@, p@, j),
        decreases last + 1 - i,
    {
        if occurs_at_exec(&sv, &pv, i) {
            return true;
        }
        if i == last {
            break;
        }
        i = i + 1;
    }
    assert forall|j: int| !occurs_at(s@, p@, j) by {
        if 0 <= j && j + p@.len() <= s@.len() {
            assert(j <= last);
        }
    }
    false
}

/// Non-overlapping occurrences of `p` in `s`.
pub fn count_occurrences(s: &str, p: &str) -> (r: usize)
    ensures
        r == count_from(s@, p@, 0),
{
    let sv = chars_vec(s);
    let pv = chars_vec(p);
    if pv.len() == 0 {
        return 0;
    }
    let mut i: usize = 0;
    let mut count: usize = 0;
    while i <= sv.len() && pv.len() <= sv.len() - i
        invariant
            sv@ == s@,
            pv@ == p@,
            p@.len() > 0,
            i <= sv@.len(),
            count <= i,
            count + count_from(s@, p@, i as int) == count_from(s@, p@, 0),
        decreases sv.len() - i,
    {
        if occurs_at_exec(&sv, &pv, i) {
            count = count + 1;
            i = i + pv.len();
        } else {
            i = i + 1;
        }
    }
    count
}

fn count_char_exec(s: &str, c: char) -> (r: usize)
    ensures
        r == count_char(s@, c),
{
    let n = s.unicode_len();
    let mut count: usize = 0;
    let mut i: usize = 0;
    while i < n
        invariant
            n == s@.len(),
            i <= n,
            count <= i,
            count == count_char(s@.take(i as int), c),
        decreases n - i,
    {
        assert(s@.take(i as int + 1).drop_last() =~= s@.take(i as int));
        if s.get_char(i) == c {
            count = count + 1;
        }
        i = i + 1;
    }
    assert(s@.take(n as int) =~= s@);
    count
}

/// An issue as plain values: severity, description, location and fix.
pub open spec fn issue_view(i: ValidationIssue) -> (IssueSeverity, Seq<char>, Option<Seq<char>>, Option<Seq<char>>) {
    (
        i.severity,
        i.description@,
        match i.location { Some(l) => Some(l@), None => None },
        match i.fix { Some(f) => Some(f@), None => None },
    )
}

pub open spec fn views(v: Seq<ValidationIssue>) -> Seq<(IssueSeverity, Seq<char>, Option<Seq<char>>, Option<Seq<char>>)> {
    v.map_values(|i: ValidationIssue| issue_view(i))
}

/// Heading level reached after the first `k` lines (0 before any heading).
pub open spec fn last_level(ls: Seq<Seq<char>>, k: int) -> int
    decreases k,
{
    if k <= 0 {
        0
    } else {
        match heading_level(ls[k - 1]) {
            Some(l) => l as int,
            None => last_level(ls, k - 1),
        }
    }
}

pub open spec fn seen_h1(ls: Seq<Seq<char>>, k: int) -> bool
    decreases k,
{
    if k <= 0 { false } else { seen_h1(ls, k - 1) || heading_level(ls[k - 1]) == Some(1u8) }
}

pub open spec fn skipped_text(from: int, to: int) -> Seq<char> {
    "Skipped heading level (H"@ + decimal(from as nat) + " to H"@ + decimal(to as nat) + ")"@
}

pub open spec fn skipped_hint(from: int, to: int, k: int) -> Seq<char> {
    "Consider using H"@ + decimal((from + 1) as nat) + " before H"@ + decimal(to as nat) + " at line "@ + decimal(
        (k + 1) as nat,
    )
}

/// Issues of heading structure in the first `k` lines: a second H1, and a
/// level more than one deeper than the previous heading.
pub open spec fn heading_issues(ls: Seq<Seq<char>>, k: int) -> Seq<(IssueSeverity, Seq<char>, Option<Seq<char>>, Option<Seq<char>>)>
    decreases k,
{
    if k <= 0 {
        Seq::empty()
    } else {
        let prev = heading_issues(ls, k - 1);
        let last = last_level(ls, k - 1);
        match heading_level(ls[k - 1]) {
            Some(l) => {
                let a = if l == 1 && seen_h1(ls, k - 1) {
                    prev.push((IssueSeverity::Warning, "Multiple H1 headings found"@, Some(line_label(k - 1)), None))
                } else {
                    prev
                };
                if l > last + 1 && last > 0 {
                    a.push((IssueSeverity::Warning, skipped_text(last, l as int), Some(line_label(k - 1)), None))
                } else {
                    a
                }
            },
            None => prev,
        }
    }
}

pub open spec fn heading_hints(ls: Seq<Seq<char>>, k: int) -> Seq<Seq<char>>
    decreases k,
{
    if k <= 0 {
        Seq::empty()
    } else {
        let prev = heading_hints(ls, k - 1);
        let last = last_level(ls, k - 1);
        match heading_level(ls[k - 1]) {
            Some(l) => if l > last + 1 && last > 0 { prev.push(skipped_hint(last, l as int, k - 1)) } else { prev },
            None => prev,
        }
    }
}

pub open spec fn link_issues(ls: Seq<Seq<char>>, k: int) -> Seq<(IssueSeverity, Seq<char>, Option<Seq<char>>, Option<Seq<char>>)>
    decreases k,
{
    if k <= 0 {
        Seq::empty()
    } else {
        let prev = link_issues(ls, k - 1);
        let line = ls[k - 1];
        let a = if contains_text(line, "!["@) && !contains_text(line, "]("@) {
            prev.push((
                IssueSeverity::Warning,
                "Possible malformed image/link syntax"@,
                Some(line_label(k - 1)),
                Some("Ensure images follow ![alt](url) format"@),
            ))
        } else {
            prev
        };
        if contains_text(line, "[]()"@) {
            a.push((IssueSeverity::Warning, "Empty link found"@, Some(line_label(k - 1)), None))
        } else {
            a
        }
    }
}

/// Columns of a table row: its `|` characters less one.
pub open spec fn bar_columns(line: Seq<char>) -> int {
    if count_char(line, '|') > 0 { count_char(line, '|') - 1 } else { 0 }
}

/// A trimmed line that begins and ends with `|`.
pub open spec fn is_table_row(line: Seq<char>) -> bool {
    let t = trim_of(line);
    t.len() > 0 && t[0] == '|' && t.last() == '|'
}

/// The column count of the table being read after `k` lines, if any.
pub open spec fn table_cols(ls: Seq<Seq<char>>, k: int) -> Option<int>
    decreases k,
{
    if k <= 0 {
        None
    } else {
        let prev = table_cols(ls, k - 1);
        let line = ls[k - 1];
        if is_table_row(line) {
            match prev {
                None => Some(bar_columns(line)),
                Some(c) => Some(c),
            }
        } else if prev is Some && trim_of(line).len() > 0 {
            None
        } else {
            prev
        }
    }
}

pub open spec fn table_issues(ls: Seq<Seq<char>>, k: int) -> Seq<(IssueSeverity, Seq<char>, Option<Seq<char>>, Option<Seq<char>>)>
    decreases k,
{
    if k <= 0 {
        Seq::empty()
    } else {
        let prev = table_issues(ls, k - 1);
        let line = ls[k - 1];
        let cols = bar_columns(line);
        match table_cols(ls, k - 1) {
            Some(expected) => if is_table_row(line) && cols != expected {
                prev.push((
                    IssueSeverity::Warning,
                    "Table row has "@ + decimal(cols as nat) + " columns, expected "@ + decimal(expected as nat),
                    Some(line_label(k - 1)),
                    None,
                ))
            } else {
                prev
            },
            None => prev,
        }
    }
}

pub open spec fn empty_issues(markdown: Seq<char>) -> Seq<(IssueSeverity, Seq<char>, Option<Seq<char>>, Option<Seq<char>>)> {
    if trim_of(markdown).len() == 0 {
        seq![(IssueSeverity::Error, "Document is empty"@, None, None)]
    } else {
        Seq::empty()
    }
}

pub open spec fn fence_issues(markdown: Seq<char>) -> Seq<(IssueSeverity, Seq<char>, Option<Seq<char>>, Option<Seq<char>>)> {
    if count_from(markdown, "```"@, 0) % 2 != 0 {
        seq![(IssueSeverity::Error, "Unclosed code block (mismatched ``` fences)"@, None, None)]
    } else {
        Seq::empty()
    }
}

pub open spec fn all_issues(markdown: Seq<char>) -> Seq<(IssueSeverity, Seq<char>, Option<Seq<char>>, Option<Seq<char>>)> {
    let ls = lines_of(markdown);
    empty_issues(markdown) + heading_issues(ls, ls.len() as int) + link_issues(ls, ls.len() as int) + fence_issues(
        markdown,
    ) + table_issues(ls, ls.len() as int)
}

pub open spec fn all_hints(markdown: Seq<char>) -> Seq<Seq<char>> {
    let ls = lines_of(markdown);
    heading_hints(ls, ls.len() as int) + if seen_h1(ls, ls.len() as int) {
        Seq::empty()
    } else {
        seq!["Consider adding an H1 heading at the beginning of the document"@]
    }
}

pub open spec fn severity_count(v: Seq<(IssueSeverity, Seq<char>, Option<Seq<char>>, Option<Seq<char>>)>, s: IssueSeverity) -> nat
    decreases v.len(),
{
    if v.len() == 0 { 0 } else { severity_count(v.drop_last(), s) + if v.last().0 == s { 1nat } else { 0nat } }
}

/// 100 for no issues, else 100 less 20 per error and 5 per warning, at
/// least 0.
pub open spec fn confidence_of(v: Seq<(IssueSeverity, Seq<char>, Option<Seq<char>>, Option<Seq<char>>)>) -> int {
    let d = 20 * severity_count(v, IssueSeverity::Error) + 5 * severity_count(v, IssueSeverity::Warning);
    if v.len() == 0 { 100 } else if d >= 100 { 0 } else { 100 - d }
}

/// Checks documents locally.
pub struct ApiValidator {
    pub provider: ValidationProvider,
}

impl ApiValidator {
    pub fn new(provider: ValidationProvider) -> (r: ApiValidator)
        ensures
            r.provider == provider,
    {
        ApiValidator { provider }
    }

    /// The heading level of a line, if it is a heading.
    pub fn get_heading_level(line: &str) -> (r: Option<u8>)
        ensures
            r == heading_level(line@),
    {
        let t = trimmed(line);
        let tv = chars_vec(t);
        let mut l: usize = 0;
        assert(t@.skip(0) =~= t@);
        while l < tv.len() && tv[l] == '#'
            invariant
                tv@ == t@,
                l <= tv@.len(),
                forall|j: int| 0 <= j < l ==> tv@[j] == '#',
                leading_hashes(t@) == l + leading_hashes(t@.skip(l as int)),
            decreases tv.len() - l,
        {
            proof {
                assert(t@.skip(l as int).drop_first() =~= t@.skip(l as int + 1));
            }
            l = l + 1;
        }
        proof {
            if l < tv@.len() {
                assert(t@.skip(l as int)[0] == tv@[l as int]);
            }
        }
        if l >= 1 && l <= 6 && l < tv.len() && tv[l] == ' ' {
            Some(l as u8)
        } else {
            None
        }
    }

    fn line_label_exec(k: usize) -> (r: String)
        requires
            k < usize::MAX,
        ensures
            r@ == line_label(k as int),
    {
        let mut s = String::from_str("Line ");
        let d = decimal_string((k + 1) as u64);
        s.append(d.as_str());
        s
    }

    fn check_heading_structure(ls: &Vec<String>) -> (r: (Vec<ValidationIssue>, Vec<String>, bool))
        ensures
            views(r.0@) == heading_issues(texts(ls@), ls@.len() as int),
            texts(r.1@) == heading_hints(texts(ls@), ls@.len() as int),
            r.2 == seen_h1(texts(ls@), ls@.len() as int),
    {
        let ghost t = texts(ls@);
        let mut issues: Vec<ValidationIssue> = Vec::new();
        let mut hints: Vec<String> = Vec::new();
        let mut last: u8 = 0;
        let mut has_h1 = false;
        let mut k: usize = 0;
        while k < ls.len()
            invariant
                t == texts(ls@),
                k <= ls@.len(),
                views(issues@) == heading_issues(t, k as int),
                texts(hints@) == heading_hints(t, k as int),
                last == last_level(t, k as int),
                last <= 6,
                has_h1 == seen_h1(t, k as int),
            decreases ls.len() - k,
        {
            let line = ls[k].as_str();
            assert(line@ == t[k as int]);
            if let Some(level) = Self::get_heading_level(line) {
                if level == 1 {
                    if has_h1 {
                        let loc = Self::line_label_exec(k);
                        let issue = ValidationIssue::new(IssueSeverity::Warning, "Multiple H1 headings found").with_location(loc.as_str());
                        let ghost before = issues@;
                        issues.push(issue);
                        assert(views(issues@) =~= views(before).push(issue_view(issue)));
                    }
                    has_h1 = true;
                }
                if level > last + 1 && last > 0 {
                    let loc = Self::line_label_exec(k);
                    let mut d = String::from_str("Skipped heading level (H");
                    d.append(decimal_string(last as u64).as_str());
                    d.append(" to H");
                    d.append(decimal_string(level as u64).as_str());
                    d.append(")");
                    let issue = ValidationIssue::new(IssueSeverity::Warning, d.as_str()).with_location(loc.as_str());
                    let ghost before = issues@;
                    issues.push(issue);
                    assert(views(issues@) =~= views(before).push(issue_view(issue)));
                    let mut h = String::from_str("Consider using H");
                    h.append(decimal_string((last + 1) as u64).as_str());
                    h.append(" before H");
                    h.append(decimal_string(level as u64).as_str());
                    h.append(" at line ");
                    h.append(decimal_string((k + 1) as u64).as_str());
                    let ghost hb = hints@;
                    hints.push(h);
                    assert(texts(hints@) =~= texts(hb).push(h@));
                }
                last = level;
            }
            k = k + 1;
        }
        (issues, hints, has_h1)
    }

    fn check_broken_links(ls: &Vec<String>) -> (r: Vec<ValidationIssue>)
        ensures
            views(r@) == link_issues(texts(ls@), ls@.len() as int),
    {
        let ghost t = texts(ls@);
        let mut issues: Vec<ValidationIssue> = Vec::new();
        let mut k: usize = 0;
        while k < ls.len()
            invariant
                t == texts(ls@),
                k <= ls@.len(),
                views(issues@) == link_issues(t, k as int),
            decreases ls.len() - k,
        {
            let line = ls[k].as_str();
            assert(line@ == t[k as int]);
            if contains_str(line, "![") && !contains_str(line, "](") {
                let loc = Self::line_label_exec(k);
                let issue = ValidationIssue::new(IssueSeverity::Warning, "Possible malformed image/link syntax")
                    .with_location(loc.as_str()).with_fix("Ensure images follow ![alt](url) format");
                let ghost before = issues@;
                issues.push(issue);
                assert(views(issues@) =~= views(before).push(issue_view(issue)));
            }
            if contains_str(line, "[]()") {
                let loc = Self::line_label_exec(k);
                let issue = ValidationIssue::new(IssueSeverity::Warning, "Empty link found").with_location(loc.as_str());
                let ghost before = issues@;
                issues.push(issue);
                assert(views(issues@) =~= views(before).push(issue_view(issue)));
            }
            k = k + 1;
        }
        issues
    }

    fn check_table_structure(ls: &Vec<String>) -> (r: Vec<ValidationIssue>)
        ensures
            views(r@) == table_issues(texts(ls@), ls@.len() as int),
    {
        let ghost t = texts(ls@);
        let mut issues: Vec<ValidationIssue> = Vec::new();
        let mut expected: Option<usize> = None;
        let mut k: usize = 0;
        while k < ls.len()
            invariant
                t == texts(ls@),
                k <= ls@.len(),
                views(issues@) == table_issues(t, k as int),
                match expected {
                    Some(c) => table_cols(t, k as int) == Some(c as int),
                    None => table_cols(t, k as int) is None,
                },
            decreases ls.len() - k,
        {
            let line = ls[k].as_str();
            assert(line@ == t[k as int]);
            let tr = trimmed(line);
            let n = tr.unicode_len();
            let row = n > 0 && tr.get_char(0) == '|' && tr.get_char(n - 1) == '|';
            let bars = count_char_exec(line, '|');
            if row {
                proof {
                    assert(tr@.last() == tr@[n - 1]);
                }
                let cols = if bars > 0 { bars - 1 } else { 0 };
                match expected {
                    None => {
                        expected = Some(cols);
                    },
                    Some(c) => {
                        if cols != c {
                            let mut d = String::from_str("Table row has ");
                            d.append(decimal_string(cols as u64).as_str());
                            d.append(" columns, expected ");
                            d.append(decimal_string(c as u64).as_str());
                            let loc = Self::line_label_exec(k);
                            let issue = ValidationIssue::new(IssueSeverity::Warning, d.as_str()).with_location(loc.as_str());
                            let ghost before = issues@;
                            issues.push(issue);
                            assert(views(issues@) =~= views(before).push(issue_view(issue)));
                        }
                    },
                }
            } else if expected.is_some() && n > 0 {
                expected = None;
            }
            k = k + 1;
        }
        issues
    }

    /// Validates a document locally: every issue found, the suggestions,
    /// whether no error was found, and the confidence.
    pub fn validate(&self, markdown: &str) -> (r: Result<ValidationResult, MarkdownError>)
        ensures
            r matches Ok(v) && {
                &&& views(v.issues@) == all_issues(markdown@)
                &&& texts(v.suggestions@) == all_hints(markdown@)
                &&& v.valid == (severity_count(all_issues(markdown@), IssueSeverity::Error) == 0)
                &&& v.confidence_percent == confidence_of(all_issues(markdown@))
                &&& v.provider@ == match self.provider {
                    ValidationProvider::Anthropic { .. } => "anthropic"@,
                    ValidationProvider::OpenAI { .. } => "openai"@,
                    ValidationProvider::LocalLLM { .. } => "local"@,
                }
            },
    {
        let ls = lines(markdown);
        let mut issues: Vec<ValidationIssue> = Vec::new();
        if char_len(trimmed(markdown)) == 0 {
            issues.push(ValidationIssue::new(IssueSeverity::Error, "Document is empty"));
        }
        assert(views(issues@) =~= empty_issues(markdown@));
        let (h, hints, has_h1) = Self::check_heading_structure(&ls);
        append_issues(&mut issues, h);
        let l = Self::check_broken_links(&ls);
        append_issues(&mut issues, l);
        if count_occurrences(markdown, "```") % 2 != 0 {
            let issue = ValidationIssue::new(IssueSeverity::Error, "Unclosed code block (mismatched ``` fences)");
            let ghost before = issues@;
            issues.push(issue);
            assert(views(issues@) =~= views(before) + fence_issues(markdown@));
        } else {
            assert(views(issues@) =~= views(issues@) + fence_issues(markdown@));
        }
        let tb = Self::check_table_structure(&ls);
        append_issues(&mut issues, tb);
        assert(views(issues@) =~= all_issues(markdown@));
        let mut suggestions = hints;
        if !has_h1 {
            let ghost before = suggestions@;
            let s = String::from_str("Consider adding an H1 heading at the beginning of the document");
            suggestions.push(s);
            assert(texts(suggestions@) =~= texts(before).push(s@));
        }
        assert(texts(suggestions@) =~= all_hints(markdown@));
        let (errors, warnings) = count_severities(&issues);
        let confidence: u32 = if issues.len() == 0 {
            100
        } else {
            let d: u128 = 20 * (errors as u128) + 5 * (warnings as u128);
            if d >= 100 { 0 } else { (100 - d) as u32 }
        };
        Ok(ValidationResult {
            valid: errors == 0,
            confidence_percent: confidence,
            issues,
            suggestions,
            provider: String::from_str(self.provider.name()),
        })
    }
}


fn char_len(s: &str) -> (r: usize)
    ensures
        r == s@.len(),
{
    s.unicode_len()
}

fn append_issues(into: &mut Vec<ValidationIssue>, more: Vec<ValidationIssue>)
    ensures
        views(final(into)@) == views(old(into)@) + views(more@),
{
    let mut more = more;
    let ghost m = more@;
    into.append(&mut more);
    assert(views(into@) =~= views(old(into)@) + views(m));
}

fn count_severities(v: &Vec<ValidationIssue>) -> (r: (usize, usize))
    ensures
        r.0 == severity_count(views(v@), IssueSeverity::Error),
        r.1 == severity_count(views(v@), IssueSeverity::Warning),
{
    let mut e: usize = 0;
    let mut w: usize = 0;
    let mut i: usize = 0;
    while i < v.len()
        invariant
            i <= v@.len(),
            e <= i && w <= i,
            e == severity_count(views(v@.take(i as int)), IssueSeverity::Error),
            w == severity_count(views(v@.take(i as int)), IssueSeverity::Warning),
        decreases v.len() - i,
    {
        assert(views(v@.take(i as int + 1)).drop_last() =~= views(v@.take(i as int)));
        match v[i].severity {
            IssueSeverity::Error => e = e + 1,
            IssueSeverity::Warning => w = w + 1,
            IssueSeverity::Info => {},
        }
        i = i + 1;
    }
    assert(v@.take(v@.len() as int) =~= v@);
    (e, w)
}
} // verus!
