use vstd::prelude::*;
use vstd::string::*;

verus! {

/// Whether `c` has the Unicode `White_Space` property.
pub open spec fn is_space(c: char) -> bool {
    let u = c as u32;
    (0x9 <= u && u <= 0xd) || u == 0x20 || u == 0x85 || u == 0xa0 || u == 0x1680 || (0x2000 <= u
        && u <= 0x200a) || u == 0x2028 || u == 0x2029 || u == 0x202f || u == 0x205f || u == 0x3000
}

/// Index of the first character of `s` at or after `i` that is not whitespace.
pub open spec fn skip_space_from(s: Seq<char>, i: int) -> int
    decreases s.len() - i,
{
    if 0 <= i < s.len() && is_space(s[i]) {
        skip_space_from(s, i + 1)
    } else {
        i
    }
}

/// `s` without its leading whitespace.
pub open spec fn trim_start(s: Seq<char>) -> Seq<char> {
    s.skip(skip_space_from(s, 0))
}

pub open spec fn starts_with(s: Seq<char>, p: Seq<char>) -> bool {
    p.len() <= s.len() && s.take(p.len() as int) == p
}

pub open spec fn comment_mark() -> Seq<char> {
    seq!['/', '/']
}

pub open spec fn lint_mark() -> Seq<char> {
    seq!['#', '!', '[', 'w', 'a', 'r', 'n', '(']
}

pub open spec fn mod_keyword() -> Seq<char> {
    seq!['p', 'u', 'b', ' ', 'm', 'o', 'd', ' ']
}

pub open spec fn crate_keyword() -> Seq<char> {
    seq!['e', 'x', 't', 'e', 'r', 'n', ' ', 'c', 'r', 'a', 't', 'e', ' ']
}

pub open spec fn use_keyword() -> Seq<char> {
    seq!['u', 's', 'e', ' ']
}

/// The one line that imports the crate `name` as a whole.
pub open spec fn crate_import_line(name: Seq<char>) -> Seq<char> {
    crate_keyword() + name + seq![';']
}

/// What a crate-qualified import of `name` starts with.
pub open spec fn use_prefix(name: Seq<char>) -> Seq<char> {
    use_keyword() + name + seq![':', ':']
}

/// `use <name>::<path>;`: the path, which may be empty and holds no line break.
pub open spec fn use_path(line: Seq<char>, name: Seq<char>) -> Option<Seq<char>> {
    let pre = use_prefix(name);
    let path = line.subrange(pre.len() as int, line.len() - 1);
    if starts_with(line, pre) && line.len() >= pre.len() + 1 && line.last() == ';'
        && !path.contains('\n') {
        Some(path)
    } else {
        None
    }
}

/// `pub mod <name>;` after leading whitespace: the name, which is not empty and
/// holds no line break.
pub open spec fn mod_name(line: Seq<char>) -> Option<Seq<char>> {
    let t = trim_start(line);
    let kw = mod_keyword();
    let name = t.subrange(kw.len() as int, t.len() - 1);
    if starts_with(t, kw) && t.len() >= kw.len() + 2 && t.last() == ';' && !name.contains('\n') {
        Some(name)
    } else {
        None
    }
}

pub enum LineKindModel {
    Comment,
    LintAttribute,
    CrateImport,
    ModuleDeclaration(Seq<char>),
    PlainUseOfCrate(Seq<char>),
    Passthrough,
}

/// The kind of `line` when the crate being inlined is called `name`; the first
/// rule that applies wins.
pub open spec fn line_kind(line: Seq<char>, name: Seq<char>) -> LineKindModel {
    if starts_with(trim_start(line), comment_mark()) {
        LineKindModel::Comment
    } else if starts_with(trim_start(line), lint_mark()) {
        LineKindModel::LintAttribute
    } else if line == crate_import_line(name) {
        LineKindModel::CrateImport
    } else if use_path(line, name) is Some {
        LineKindModel::PlainUseOfCrate(use_path(line, name)->0)
    } else if mod_name(line) is Some {
        LineKindModel::ModuleDeclaration(mod_name(line)->0)
    } else {
        LineKindModel::Passthrough
    }
}

/// The kind of one source line. Comments and lint attributes are dropped from
/// the bundle, which makes the bundle lossy on purpose.
#[derive(Debug, Clone, PartialEq, Eq)]
pub enum LineKind {
    Comment,
    LintAttribute,
    CrateImport,
    ModuleDeclaration(String),
    PlainUseOfCrate(String),
    Passthrough,
}

impl View for LineKind {
    type V = LineKindModel;

    open spec fn view(&self) -> LineKindModel {
        match self {
            LineKind::Comment => LineKindModel::Comment,
            LineKind::LintAttribute => LineKindModel::LintAttribute,
            LineKind::CrateImport => LineKindModel::CrateImport,
            LineKind::ModuleDeclaration(m) => LineKindModel::ModuleDeclaration(m@),
            LineKind::PlainUseOfCrate(p) => LineKindModel::PlainUseOfCrate(p@),
            LineKind::Passthrough => LineKindModel::Passthrough,
        }
    }
}

pub fn is_space_char(c: char) -> (r: bool)
    ensures
        r == is_space(c),
{
    let u = c as u32;
    (0x9 <= u && u <= 0xd) || u == 0x20 || u == 0x85 || u == 0xa0 || u == 0x1680 || (0x2000 <= u
        && u <= 0x200a) || u == 0x2028 || u == 0x2029 || u == 0x202f || u == 0x205f || u == 0x3000
}

/// The characters of `s`, in order.
pub fn chars_of(s: &str) -> (r: Vec<char>)
    ensures
        r@ == s@,
{
    let n = s.unicode_len();
    let mut r: Vec<char> = Vec::new();
    let mut i: usize = 0;
    while i < n
        invariant
            n == s@.len(),
            i <= n,
            r@ == s@.take(i as int),
        decreases n - i,
    {
        r.push(s.get_char(i));
        i = i + 1;
        assert(r@ =~= s@.take(i as int));
    }
    assert(r@ =~= s@);
    r
}

/// Index of the first character of `s` that is not whitespace.
pub fn leading_space(s: &Vec<char>) -> (r: usize)
    ensures
        r as int == skip_space_from(s@, 0),
        r <= s@.len(),
{
    let mut i: usize = 0;
    while i < s.len() && is_space_char(s[i])
        invariant
            i <= s@.len(),
            skip_space_from(s@, i as int) == skip_space_from(s@, 0),
        decreases s@.len() - i,
    {
        i = i + 1;
    }
    proof {
        lemma_space_run_ends(s@, i as int);
    }
    i
}

proof fn lemma_space_run_ends(s: Seq<char>, i: int)
    requires
        0 <= i <= s.len(),
        !(i < s.len() && is_space(s[i])),
    ensures
        skip_space_from(s, i) == i,
{
}

/// Whether `p` occurs in `s` at `start`.
pub fn has_at(s: &Vec<char>, start: usize, p: &Vec<char>) -> (r: bool)
    ensures
        r == (start + p@.len() <= s@.len() && s@.subrange(start as int, start + p@.len()) == p@),
{
    if start > s.len() || p.len() > s.len() - start {
        return false;
    }
    let mut j: usize = 0;
    while j < p.len()
        invariant
            start + p@.len() <= s@.len() <= usize::MAX,
            j <= p@.len(),
            forall|k: int| 0 <= k < j ==> s@[start + k] == p@[k],
        decreases p@.len() - j,
    {
        if s[start + j] != p[j] {
            assert(s@.subrange(start as int, start + p@.len())[j as int] != p@[j as int]);
            return false;
        }
        j = j + 1;
    }
    assert(s@.subrange(start as int, start + p@.len()) =~= p@);
    true
}

/// Whether `c` occurs in `s` between `from` (included) and `to` (excluded).
pub fn holds_char(s: &Vec<char>, from: usize, to: usize, c: char) -> (r: bool)
    requires
        from <= to <= s@.len(),
    ensures
        r == s@.subrange(from as int, to as int).contains(c),
{
    let ghost sub = s@.subrange(from as int, to as int);
    let mut i: usize = from;
    while i < to
        invariant
            from <= i <= to <= s@.len(),
            sub == s@.subrange(from as int, to as int),
            forall|k: int| from <= k < i ==> s@[k] != c,
        decreases to - i,
    {
        if s[i] == c {
            assert(sub[i - from] == c);
            return true;
        }
        i = i + 1;
    }
    assert forall|k: int| 0 <= k < sub.len() implies sub[k] != c by {
        assert(sub[k] == s@[from + k]);
    }
    false
}

fn comment_mark_chars() -> (r: Vec<char>)
    ensures
        r@ == comment_mark(),
{
    let r = vec!['/', '/'];
    assert(r@ =~= comment_mark());
    r
}

fn lint_mark_chars() -> (r: Vec<char>)
    ensures
        r@ == lint_mark(),
{
    let r = vec!['#', '!', '[', 'w', 'a', 'r', 'n', '('];
    assert(r@ =~= lint_mark());
    r
}

fn mod_keyword_chars() -> (r: Vec<char>)
    ensures
        r@ == mod_keyword(),
{
    let r = vec!['p', 'u', 'b', ' ', 'm', 'o', 'd', ' '];
    assert(r@ =~= mod_keyword());
    r
}

fn crate_keyword_chars() -> (r: Vec<char>)
    ensures
        r@ == crate_keyword(),
{
    let r = vec!['e', 'x', 't', 'e', 'r', 'n', ' ', 'c', 'r', 'a', 't', 'e', ' '];
    assert(r@ =~= crate_keyword());
    r
}

fn use_keyword_chars() -> (r: Vec<char>)
    ensures
        r@ == use_keyword(),
{
    let r = vec!['u', 's', 'e', ' '];
    assert(r@ =~= use_keyword());
    r
}

/// `a` followed by `b`.
fn joined(a: &Vec<char>, b: &Vec<char>) -> (r: Vec<char>)
    ensures
        r@ == a@ + b@,
{
    let mut r = a.clone();
    let mut i: usize = 0;
    while i < b.len()
        invariant
            i <= b@.len(),
            r@ == a@ + b@.take(i as int),
        decreases b@.len() - i,
    {
        r.push(b[i]);
        i = i + 1;
        assert(r@ =~= a@ + b@.take(i as int));
    }
    assert(b@.take(b@.len() as int) =~= b@);
    r
}

proof fn lemma_starts_with_skip(s: Seq<char>, k: int, p: Seq<char>)
    requires
        0 <= k <= s.len(),
    ensures
        starts_with(s.skip(k), p) == (k + p.len() <= s.len() && s.subrange(k, k + p.len()) == p),
{
    if k + p.len() <= s.len() {
        assert(s.skip(k).take(p.len() as int) =~= s.subrange(k, k + p.len()));
    }
}

/// The path of `use <name>::<path>;`, when `line` is one.
fn find_use_path(line: &str, s: &Vec<char>, name: &Vec<char>) -> (r: Option<String>)
    requires
        s@ == line@,
    ensures
        r matches Some(p) ==> use_path(s@, name@) == Some(p@),
        r is None ==> use_path(s@, name@) is None,
{
    let kw = use_keyword_chars();
    let colons = vec![':', ':'];
    let pre = joined(&joined(&kw, name), &colons);
    assert(pre@ == use_prefix(name@)) by {
        assert(colons@ =~= seq![':', ':']);
    }
    proof {
        lemma_starts_with_skip(s@, 0, pre@);
        assert(s@.skip(0) =~= s@);
    }
    let n = s.len();
    if has_at(s, 0, &pre) && n > pre.len() && s[n - 1] == ';' {
        if holds_char(s, pre.len(), n - 1, '\n') {
            None
        } else {
            Some(line.substring_char(pre.len(), n - 1).to_owned())
        }
    } else {
        None
    }
}

/// The name of `pub mod <name>;`, when `line` is one.
fn find_mod_name(line: &str, s: &Vec<char>, k: usize) -> (r: Option<String>)
    requires
        s@ == line@,
        k as int == skip_space_from(s@, 0),
        k <= s@.len(),
    ensures
        r matches Some(m) ==> mod_name(s@) == Some(m@),
        r is None ==> mod_name(s@) is None,
{
    let kw = mod_keyword_chars();
    proof {
        lemma_starts_with_skip(s@, k as int, kw@);
    }
    let n = s.len();
    let ghost t = trim_start(s@);
    if has_at(s, k, &kw) && n - k - kw.len() >= 2 && s[n - 1] == ';' {
        assert(t.last() == s@.last());
        assert(t.subrange(kw@.len() as int, t.len() - 1) =~= s@.subrange(
            k + kw@.len(),
            n - 1,
        ));
        if holds_char(s, k + kw.len(), n - 1, '\n') {
            None
        } else {
            Some(line.substring_char(k + kw.len(), n - 1).to_owned())
        }
    } else {
        proof {
            if n >= k + kw@.len() + 2 {
                assert(t.last() == s@.last());
            }
        }
        None
    }
}

/// Classifies one line of source text for the crate called `crate_name`
/// (matched literally). The rules are tried in order: a comment, a lint
/// attribute, the crate import, a crate-qualified `use`, a `pub mod`
/// declaration; any other line is passed through.
pub fn classify(line: &str, crate_name: &str) -> (r: LineKind)
    ensures
        r@ == line_kind(line@, crate_name@),
{
    let s = chars_of(line);
    let name = chars_of(crate_name);
    let k = leading_space(&s);
    proof {
        lemma_starts_with_skip(s@, k as int, comment_mark());
        lemma_starts_with_skip(s@, k as int, lint_mark());
    }
    if has_at(&s, k, &comment_mark_chars()) {
        return LineKind::Comment;
    }
    if has_at(&s, k, &lint_mark_chars()) {
        return LineKind::LintAttribute;
    }
    let whole = joined(&joined(&crate_keyword_chars(), &name), &vec![';']);
    assert(whole@ =~= crate_import_line(name@));
    if whole.len() == s.len() && has_at(&s, 0, &whole) {
        assert(s@.subrange(0, s@.len() as int) =~= s@);
        return LineKind::CrateImport;
    }
    assert(s@ != crate_import_line(name@)) by {
        if s@ == crate_import_line(name@) {
            assert(s@.subrange(0, s@.len() as int) =~= s@);
        }
    }
    match find_use_path(line, &s, &name) {
        Some(p) => {
            return LineKind::PlainUseOfCrate(p);
        },
        None => {},
    }
    match find_mod_name(line, &s, k) {
        Some(m) => LineKind::ModuleDeclaration(m),
        None => LineKind::Passthrough,
    }
}

/// `line` without its leading whitespace.
pub fn trimmed_start(line: &str) -> (r: String)
    ensures
        r@ == trim_start(line@),
{
    let s = chars_of(line);
    let k = leading_space(&s);
    assert(line@.skip(k as int) =~= line@.subrange(k as int, line@.len() as int));
    line.substring_char(k, s.len()).to_owned()
}

/// Where the text of `s` between `start` and `e` ends once trailing whitespace
/// is removed.
pub open spec fn content_end(s: Seq<char>, start: int, e: int) -> int
    decreases e - start,
{
    if start < e && is_space(s[e - 1]) {
        content_end(s, start, e - 1)
    } else {
        e
    }
}

pub proof fn lemma_content_end(s: Seq<char>, start: int, e: int)
    requires
        start <= e,
    ensures
        start <= content_end(s, start, e) <= e,
    decreases e - start,
{
    if start < e && is_space(s[e - 1]) {
        lemma_content_end(s, start, e - 1);
    }
}

/// `s` without its trailing whitespace.
pub open spec fn trim_end(s: Seq<char>) -> Seq<char> {
    s.take(content_end(s, 0, s.len() as int))
}

/// `s` without leading and trailing whitespace.
pub open spec fn trim(s: Seq<char>) -> Seq<char> {
    trim_start(trim_end(s))
}

proof fn lemma_content_end_stops(s: Seq<char>, start: int, e: int)
    requires
        0 <= start <= e <= s.len(),
    ensures
        content_end(s, start, e) == start || !is_space(s[content_end(s, start, e) - 1]),
    decreases e - start,
{
    if start < e && is_space(s[e - 1]) {
        lemma_content_end_stops(s, start, e - 1);
    }
}

/// Removing trailing whitespace a second time changes nothing.
pub proof fn lemma_trim_end_idempotent(s: Seq<char>)
    ensures
        trim_end(trim_end(s)) == trim_end(s),
{
    let k = content_end(s, 0, s.len() as int);
    lemma_content_end(s, 0, s.len() as int);
    lemma_content_end_stops(s, 0, s.len() as int);
    let t = s.take(k);
    assert(t.take(t.len() as int) =~= t);
    if k > 0 {
        assert(t[k - 1] == s[k - 1]);
    }
}

/// A text that ends in a character other than whitespace has none to remove.
pub proof fn lemma_trim_end_of_solid(s: Seq<char>)
    requires
        s.len() > 0,
        !is_space(s.last()),
    ensures
        trim_end(s) == s,
{
    assert(s.take(s.len() as int) =~= s);
}

/// `line` without its trailing whitespace.
pub fn trimmed_end(line: &str) -> (r: String)
    ensures
        r@ == trim_end(line@),
{
    let s = chars_of(line);
    let n = s.len();
    let mut t = n;
    while t > 0 && is_space_char(s[t - 1])
        invariant
            n == s@.len(),
            t <= n,
            content_end(s@, 0, t as int) == content_end(s@, 0, n as int),
        decreases t,
    {
        t = t - 1;
    }
    assert(line@.take(t as int) =~= line@.subrange(0, t as int));
    line.substring_char(0, t).to_owned()
}

} // verus!
