//! The table compiler: reads a registry from tab-separated text with a
//! header row, checks every row, and builds a registry in which no key names
//! two records.  Tag-keyed tables keep the order of their lines; the LCID
//! table comes out sorted by its composite key.  The registries in
//! `autonym`, `script` and `lcid` are proved to keep the same rules.
use vstd::prelude::*;
use crate::alias::{TagKeys, is_key};
use crate::lcid::{LcidKey, key_lt, lemma_key_lt_total, lemma_key_lt_transitive};
use crate::numeral::{decimal, lemma_run_index, value};
use crate::text::{chars_of, is_lower_word, opt_view, string_from_chars};

verus! {

/// The pieces of `s` between occurrences of `sep`; there is always at
/// least one.
pub open spec fn split(s: Seq<char>, sep: char) -> Seq<Seq<char>>
    decreases s.len(),
{
    if s.len() == 0 {
        seq![Seq::empty()]
    } else {
        let p = split(s.drop_last(), sep);
        if s.last() == sep {
            p.push(Seq::empty())
        } else {
            p.update(p.len() - 1, p.last().push(s.last()))
        }
    }
}

pub proof fn lemma_split_len(s: Seq<char>, sep: char)
    ensures
        split(s, sep).len() >= 1,
    decreases s.len(),
{
    if s.len() > 0 {
        lemma_split_len(s.drop_last(), sep);
    }
}

pub open spec fn views(v: Seq<Vec<char>>) -> Seq<Seq<char>> {
    v.map_values(|x: Vec<char>| x@)
}

/// The pieces of `s` between occurrences of `sep`.
pub fn split_chars(s: &Vec<char>, sep: char) -> (r: Vec<Vec<char>>)
    ensures
        views(r@) == split(s@, sep),
{
    let mut done: Vec<Vec<char>> = Vec::new();
    let mut cur: Vec<char> = Vec::new();
    let mut i: usize = 0;
    while i < s.len()
        invariant
            i <= s.len(),
            views(done@).push(cur@) == split(s@.subrange(0, i as int), sep),
        decreases s.len() - i,
    {
        let c = s[i];
        proof {
            let t = s@.subrange(0, i + 1);
            assert(t.drop_last() =~= s@.subrange(0, i as int));
            assert(t.last() == c);
            lemma_split_len(s@.subrange(0, i as int), sep);
        }
        if c == sep {
            let piece = cur;
            done.push(piece);
            cur = Vec::new();
            proof {
                assert(views(done@) =~= views(done@).drop_last().push(piece@));
                assert(views(done@).push(cur@) =~= split(s@.subrange(0, i + 1), sep));
            }
        } else {
            cur.push(c);
            proof {
                assert(views(done@).push(cur@) =~= split(s@.subrange(0, i + 1), sep));
            }
        }
        i = i + 1;
    }
    done.push(cur);
    proof {
        assert(s@.subrange(0, s@.len() as int) =~= s@);
        assert(views(done@) =~= split(s@, sep));
    }
    done
}

/// Unicode white space, as `char::is_whitespace` has it.
pub open spec fn is_space(c: char) -> bool {
    ('\t' <= c && c <= '\r') || c == ' ' || c == '\u{85}' || c == '\u{a0}' || c == '\u{1680}' || (
    '\u{2000}' <= c && c <= '\u{200a}') || c == '\u{2028}' || c == '\u{2029}' || c == '\u{202f}'
        || c == '\u{205f}' || c == '\u{3000}'
}

/// An optional column: absent when it holds only white space.
pub open spec fn optional(f: Seq<char>) -> Option<Seq<char>> {
    if forall|i: int| 0 <= i < f.len() ==> is_space(#[trigger] f[i]) {
        None
    } else {
        Some(f)
    }
}

fn is_space_char(c: char) -> (r: bool)
    ensures
        r == is_space(c),
{
    ('\t' <= c && c <= '\r') || c == ' ' || c == '\u{85}' || c == '\u{a0}' || c == '\u{1680}' || (
    '\u{2000}' <= c && c <= '\u{200a}') || c == '\u{2028}' || c == '\u{2029}' || c == '\u{202f}'
        || c == '\u{205f}' || c == '\u{3000}'
}

fn optional_field(f: &Vec<char>) -> (r: Option<String>)
    ensures
        string_opt(r) == optional(f@),
{
    let mut i: usize = 0;
    while i < f.len()
        invariant
            i <= f.len(),
            forall|j: int| 0 <= j < i ==> is_space(#[trigger] f@[j]),
        decreases f.len() - i,
    {
        if !is_space_char(f[i]) {
            return Some(string_from_chars(f));
        }
        i = i + 1;
    }
    None
}

pub open spec fn string_opt(s: Option<String>) -> Option<Seq<char>> {
    match s {
        Some(x) => Some(x@),
        None => None,
    }
}

fn lower_word(f: &Vec<char>, n: usize) -> (r: bool)
    ensures
        r == is_lower_word(f@, n as nat),
{
    if f.len() != n {
        return false;
    }
    let mut i: usize = 0;
    while i < n
        invariant
            f@.len() == n,
            i <= n,
            forall|j: int| 0 <= j < i ==> crate::text::is_lower(#[trigger] f@[j]),
        decreases n - i,
    {
        if !('a' <= f[i] && f[i] <= 'z') {
            return false;
        }
        i = i + 1;
    }
    true
}

/// Why a table cannot be compiled; each carries its line number, the
/// header being line 1.
#[derive(Debug, Clone, Copy, PartialEq, Eq, Structural)]
pub enum CompileError {
    /// The row has the wrong number of columns or a column breaks the
    /// registry's rules.
    BadRow(usize),
    /// The row registers a key that an earlier row registered.
    DuplicateKey(usize),
}

/// The keys of one tag-keyed row: its three-letter tag and, when the alias
/// column is not blank, that alias.
pub open spec fn row_keys(f: Seq<Seq<char>>) -> Option<TagKeys> {
    if f.len() == 5 && is_lower_word(f[0], 3) && (optional(f[1]) matches Some(t) ==> is_lower_word(t, 2)) {
        Some((f[0], optional(f[1])))
    } else {
        None
    }
}

/// `k` registers a key that some record of `ks` already has.
pub open spec fn clashes(ks: Seq<TagKeys>, k: TagKeys) -> bool {
    exists|j: int|
        0 <= j < ks.len() && (is_key(#[trigger] ks[j], k.0) || (k.1 matches Some(a) && is_key(ks[j], a)))
}

/// The records that lines `1..n` make, in the order of the lines, blank
/// lines skipped; or the first line that is refused.  `row` reads a row's
/// columns, `keys` gives a record's keys.
pub open spec fn compiled<R>(
    lines: Seq<Seq<char>>,
    n: nat,
    row: spec_fn(Seq<Seq<char>>) -> Option<R>,
    keys: spec_fn(R) -> TagKeys,
) -> Result<Seq<R>, CompileError>
    decreases n,
{
    if n <= 1 || n > lines.len() {
        Ok(Seq::empty())
    } else {
        match compiled(lines, (n - 1) as nat, row, keys) {
            Err(e) => Err(e),
            Ok(rs) => {
                let l = lines[n - 1];
                if l.len() == 0 {
                    Ok(rs)
                } else {
                    match row(split(l, '\t')) {
                        None => Err(CompileError::BadRow(n as usize)),
                        Some(r) => if clashes(rs.map_values(keys), keys(r)) {
                            Err(CompileError::DuplicateKey(n as usize))
                        } else {
                            Ok(rs.push(r))
                        },
                    }
                }
            },
        }
    }
}

/// Once a line is refused, the result stays that refusal.
pub proof fn lemma_refusal_stays<R>(
    lines: Seq<Seq<char>>,
    n: nat,
    m: nat,
    row: spec_fn(Seq<Seq<char>>) -> Option<R>,
    keys: spec_fn(R) -> TagKeys,
)
    requires
        n <= m <= lines.len(),
        compiled(lines, n, row, keys) is Err,
    ensures
        compiled(lines, m, row, keys) == compiled(lines, n, row, keys),
    decreases m - n,
{
    if n < m {
        lemma_refusal_stays(lines, n, (m - 1) as nat, row, keys);
    }
}

/// One row of the autonym table: tag, alias, English name, autonym, source.
pub type AutonymView = (Seq<char>, Option<Seq<char>>, Seq<char>, Option<Seq<char>>, Seq<char>);

/// One row of the script table: tag, alias, script, source.
pub type ScriptView = (Seq<char>, Option<Seq<char>>, Seq<char>, Seq<char>);

/// Four ASCII letters.
pub open spec fn is_script_code(f: Seq<char>) -> bool {
    f.len() == 4 && forall|i: int| 0 <= i < 4 ==> crate::text::is_ascii_letter(#[trigger] f[i])
}

pub open spec fn autonym_row(f: Seq<Seq<char>>) -> Option<AutonymView> {
    match row_keys(f) {
        Some(k) => Some((k.0, k.1, f[2], optional(f[3]), f[4])),
        None => None,
    }
}

pub open spec fn script_row(f: Seq<Seq<char>>) -> Option<ScriptView> {
    match row_keys(f) {
        Some(k) => if is_script_code(f[2]) {
            Some((k.0, k.1, f[2], f[4]))
        } else {
            None
        },
        None => None,
    }
}

pub open spec fn autonym_keys(r: AutonymView) -> TagKeys {
    (r.0, r.1)
}

pub open spec fn script_keys(r: ScriptView) -> TagKeys {
    (r.0, r.1)
}

/// A compiled row of the autonym table.
#[derive(Debug)]
pub struct AutonymRow {
    pub tag3: String,
    pub tag1: Option<String>,
    pub name: String,
    pub autonym: Option<String>,
    pub source: String,
}

impl View for AutonymRow {
    type V = AutonymView;

    open spec fn view(&self) -> AutonymView {
        (self.tag3@, string_opt(self.tag1), self.name@, string_opt(self.autonym), self.source@)
    }
}

/// A compiled row of the script table.
#[derive(Debug)]
pub struct ScriptRow {
    pub tag3: String,
    pub tag1: Option<String>,
    pub script: String,
    pub source: String,
}

impl View for ScriptRow {
    type V = ScriptView;

    open spec fn view(&self) -> ScriptView {
        (self.tag3@, string_opt(self.tag1), self.script@, self.source@)
    }
}

pub open spec fn key_views(ks: Seq<(String, Option<String>)>) -> Seq<TagKeys> {
    ks.map_values(|k: (String, Option<String>)| (k.0@, string_opt(k.1)))
}

fn opt_as_str(o: &Option<String>) -> (r: Option<&str>)
    ensures
        opt_view(r) == string_opt(*o),
{
    match o {
        Some(s) => Some(s.as_str()),
        None => None,
    }
}

fn is_key_exec(k: &(String, Option<String>), key: &str) -> (r: bool)
    ensures
        r == is_key((k.0@, string_opt(k.1)), key@),
{
    crate::text::str_eq(k.0.as_str(), key) || match opt_as_str(&k.1) {
        Some(a) => crate::text::str_eq(a, key),
        None => false,
    }
}

fn clashes_exec(ks: &Vec<(String, Option<String>)>, tag3: &str, tag1: Option<&str>) -> (r: bool)
    ensures
        r == clashes(key_views(ks@), (tag3@, opt_view(tag1))),
{
    let mut j: usize = 0;
    while j < ks.len()
        invariant
            j <= ks.len(),
            forall|i: int|
                0 <= i < j ==> !(is_key(#[trigger] key_views(ks@)[i], tag3@) || (opt_view(tag1) matches Some(a)
                    && is_key(key_views(ks@)[i], a))),
        decreases ks.len() - j,
    {
        let hit = is_key_exec(&ks[j], tag3) || match tag1 {
            Some(a) => is_key_exec(&ks[j], a),
            None => false,
        };
        if hit {
            proof {
                assert(is_key(key_views(ks@)[j as int], tag3@) || (opt_view(tag1) matches Some(a)
                    && is_key(key_views(ks@)[j as int], a)));
            }
            return true;
        }
        j = j + 1;
    }
    false
}

fn script_code(f: &Vec<char>) -> (r: bool)
    ensures
        r == is_script_code(f@),
{
    if f.len() != 4 {
        return false;
    }
    let mut i: usize = 0;
    while i < 4
        invariant
            f@.len() == 4,
            i <= 4,
            forall|j: int| 0 <= j < i ==> crate::text::is_ascii_letter(#[trigger] f@[j]),
        decreases 4 - i,
    {
        let c = f[i];
        if !(('a' <= c && c <= 'z') || ('A' <= c && c <= 'Z')) {
            return false;
        }
        i = i + 1;
    }
    true
}

pub open spec fn autonyms_upto(lines: Seq<Seq<char>>, n: nat) -> Result<Seq<AutonymView>, CompileError> {
    compiled(lines, n, autonym_row_fn(), autonym_keys_fn())
}

pub open spec fn autonym_row_fn() -> spec_fn(Seq<Seq<char>>) -> Option<AutonymView> {
    |f: Seq<Seq<char>>| autonym_row(f)
}

pub open spec fn autonym_keys_fn() -> spec_fn(AutonymView) -> TagKeys {
    |r: AutonymView| autonym_keys(r)
}

/// The records that a whole text makes, or the first line refused.
pub open spec fn autonyms_of(text: Seq<char>) -> Result<Seq<AutonymView>, CompileError> {
    autonyms_upto(split(text, '\n'), split(text, '\n').len())
}

pub open spec fn autonyms_views(t: Seq<AutonymRow>) -> Seq<AutonymView> {
    t.map_values(|r: AutonymRow| r@)
}

/// Compiles the autonym table: columns tag3, tag1, English name, autonym,
/// source.
pub fn compile_autonyms(tsv: &str) -> (r: Result<Vec<AutonymRow>, CompileError>)
    ensures
        match r {
            Ok(t) => autonyms_of(tsv@) == Ok::<_, CompileError>(autonyms_views(t@)),
            Err(e) => autonyms_of(tsv@) == Err::<Seq<AutonymView>, _>(e),
        },
{
    let text = chars_of(tsv);
    let lines = split_chars(&text, '\n');
    let mut rows: Vec<AutonymRow> = Vec::new();
    let mut keys: Vec<(String, Option<String>)> = Vec::new();
    let mut i: usize = 1;
    proof {
        lemma_split_len(tsv@, '\n');
        assert(autonyms_views(rows@) =~= Seq::<AutonymView>::empty());
    }
    while i < lines.len()
        invariant
            views(lines@) == split(tsv@, '\n'),
            1 <= i <= lines.len(),
            autonyms_upto(views(lines@), i as nat) == Ok::<_, CompileError>(autonyms_views(rows@)),
            key_views(keys@) == autonyms_views(rows@).map_values(autonym_keys_fn()),
        decreases lines.len() - i,
    {
        let line = &lines[i];
        proof {
            assert(views(lines@)[i as int] == line@);
        }
        if line.len() > 0 {
            let f = split_chars(line, '\t');
            proof {
                assert(f@.len() == 5 ==> views(f@)[0] == f@[0]@ && views(f@)[1] == f@[1]@ && views(f@)[2] == f@[2]@ && views(f@)[3] == f@[3]@ && views(f@)[4] == f@[4]@);
            }
            if f.len() != 5 || !lower_word(&f[0], 3) {
                proof {
                    lemma_refusal_stays(views(lines@), (i + 1) as nat, lines@.len(), autonym_row_fn(), autonym_keys_fn());
                }
                return Err(CompileError::BadRow(i + 1));
            }
            let tag1 = optional_field(&f[1]);
            if tag1.is_some() && !lower_word(&f[1], 2) {
                proof {
                    lemma_refusal_stays(views(lines@), (i + 1) as nat, lines@.len(), autonym_row_fn(), autonym_keys_fn());
                }
                return Err(CompileError::BadRow(i + 1));
            }
            let tag3 = string_from_chars(&f[0]);
            if clashes_exec(&keys, tag3.as_str(), opt_as_str(&tag1)) {
                proof {
                    lemma_refusal_stays(views(lines@), (i + 1) as nat, lines@.len(), autonym_row_fn(), autonym_keys_fn());
                }
                return Err(CompileError::DuplicateKey(i + 1));
            }
            let row = AutonymRow {
                tag3: string_from_chars(&f[0]),
                tag1: optional_field(&f[1]),
                name: string_from_chars(&f[2]),
                autonym: optional_field(&f[3]),
                source: string_from_chars(&f[4]),
            };
            let ghost prev = rows@;
            let ghost prev_keys = keys@;
            let ghost k = (tag3@, string_opt(tag1));
            proof {
                assert(autonym_keys_fn()(row@) == k);
            }
            rows.push(row);
            keys.push((tag3, tag1));
            proof {
                assert(autonyms_views(rows@) =~= autonyms_views(prev).push(row@));
                assert(key_views(keys@) =~= key_views(prev_keys).push(k));
                assert(autonyms_views(rows@).map_values(autonym_keys_fn()) =~= autonyms_views(prev).map_values(autonym_keys_fn()).push(k));
            }
        }
        i = i + 1;
    }
    Ok(rows)
}

pub open spec fn scripts_upto(lines: Seq<Seq<char>>, n: nat) -> Result<Seq<ScriptView>, CompileError> {
    compiled(lines, n, script_row_fn(), script_keys_fn())
}

pub open spec fn script_row_fn() -> spec_fn(Seq<Seq<char>>) -> Option<ScriptView> {
    |f: Seq<Seq<char>>| script_row(f)
}

pub open spec fn script_keys_fn() -> spec_fn(ScriptView) -> TagKeys {
    |r: ScriptView| script_keys(r)
}

/// The records that a whole text makes, or the first line refused.
pub open spec fn scripts_of(text: Seq<char>) -> Result<Seq<ScriptView>, CompileError> {
    scripts_upto(split(text, '\n'), split(text, '\n').len())
}

pub open spec fn scripts_views(t: Seq<ScriptRow>) -> Seq<ScriptView> {
    t.map_values(|r: ScriptRow| r@)
}

/// Compiles the script table: columns tag3, tag1, script, (unused), source.
pub fn compile_scripts(tsv: &str) -> (r: Result<Vec<ScriptRow>, CompileError>)
    ensures
        match r {
            Ok(t) => scripts_of(tsv@) == Ok::<_, CompileError>(scripts_views(t@)),
            Err(e) => scripts_of(tsv@) == Err::<Seq<ScriptView>, _>(e),
        },
{
    let text = chars_of(tsv);
    let lines = split_chars(&text, '\n');
    let mut rows: Vec<ScriptRow> = Vec::new();
    let mut keys: Vec<(String, Option<String>)> = Vec::new();
    let mut i: usize = 1;
    proof {
        lemma_split_len(tsv@, '\n');
        assert(scripts_views(rows@) =~= Seq::<ScriptView>::empty());
    }
    while i < lines.len()
        invariant
            views(lines@) == split(tsv@, '\n'),
            1 <= i <= lines.len(),
            scripts_upto(views(lines@), i as nat) == Ok::<_, CompileError>(scripts_views(rows@)),
            key_views(keys@) == scripts_views(rows@).map_values(script_keys_fn()),
        decreases lines.len() - i,
    {
        let line = &lines[i];
        proof {
            assert(views(lines@)[i as int] == line@);
        }
        if line.len() > 0 {
            let f = split_chars(line, '\t');
            proof {
                assert(f@.len() == 5 ==> views(f@)[0] == f@[0]@ && views(f@)[1] == f@[1]@ && views(f@)[2] == f@[2]@ && views(f@)[3] == f@[3]@ && views(f@)[4] == f@[4]@);
            }
            if f.len() != 5 || !lower_word(&f[0], 3) {
                proof {
                    lemma_refusal_stays(views(lines@), (i + 1) as nat, lines@.len(), script_row_fn(), script_keys_fn());
                }
                return Err(CompileError::BadRow(i + 1));
            }
            let tag1 = optional_field(&f[1]);
            if tag1.is_some() && !lower_word(&f[1], 2) {
                proof {
                    lemma_refusal_stays(views(lines@), (i + 1) as nat, lines@.len(), script_row_fn(), script_keys_fn());
                }
                return Err(CompileError::BadRow(i + 1));
            }
            if !script_code(&f[2]) {
                proof {
                    lemma_refusal_stays(views(lines@), (i + 1) as nat, lines@.len(), script_row_fn(), script_keys_fn());
                }
                return Err(CompileError::BadRow(i + 1));
            }
            let tag3 = string_from_chars(&f[0]);
            if clashes_exec(&keys, tag3.as_str(), opt_as_str(&tag1)) {
                proof {
                    lemma_refusal_stays(views(lines@), (i + 1) as nat, lines@.len(), script_row_fn(), script_keys_fn());
                }
                return Err(CompileError::DuplicateKey(i + 1));
            }
            let row = ScriptRow {
                tag3: string_from_chars(&f[0]),
                tag1: optional_field(&f[1]),
                script: string_from_chars(&f[2]),
                source: string_from_chars(&f[4]),
            };
            let ghost prev = rows@;
            let ghost prev_keys = keys@;
            let ghost k = (tag3@, string_opt(tag1));
            proof {
                assert(script_keys_fn()(row@) == k);
            }
            rows.push(row);
            keys.push((tag3, tag1));
            proof {
                assert(scripts_views(rows@) =~= scripts_views(prev).push(row@));
                assert(key_views(keys@) =~= key_views(prev_keys).push(k));
                assert(scripts_views(rows@).map_values(script_keys_fn()) =~= scripts_views(prev).map_values(script_keys_fn()).push(k));
            }
        }
        i = i + 1;
    }
    Ok(rows)
}

/// No key names two records.
pub open spec fn keys_unique(ks: Seq<TagKeys>) -> bool {
    forall|i: int, j: int, key: Seq<char>|
        0 <= i < ks.len() && 0 <= j < ks.len() && #[trigger] is_key(ks[i], key) && #[trigger] is_key(
            ks[j],
            key,
        ) ==> i == j
}

/// In a compiled tag-keyed table no key names two records, so a record's
/// tag and its alias lead to that record alone.
pub proof fn lemma_compiled_keys_unique<R>(
    lines: Seq<Seq<char>>,
    n: nat,
    row: spec_fn(Seq<Seq<char>>) -> Option<R>,
    keys: spec_fn(R) -> TagKeys,
)
    ensures
        compiled(lines, n, row, keys) matches Ok(rs) ==> keys_unique(rs.map_values(keys)),
    decreases n,
{
    if n > 1 && n <= lines.len() {
        lemma_compiled_keys_unique(lines, (n - 1) as nat, row, keys);
        if let Ok(rs) = compiled(lines, (n - 1) as nat, row, keys) {
            let l = lines[n - 1];
            if l.len() != 0 {
                if let Some(r) = row(split(l, '\t')) {
                    let ks = rs.map_values(keys);
                    let k = keys(r);
                    if !clashes(ks, k) {
                        let ks2 = rs.push(r).map_values(keys);
                        assert(ks2 =~= ks.push(k));
                        assert forall|i: int, j: int, key: Seq<char>|
                            0 <= i < ks2.len() && 0 <= j < ks2.len() && #[trigger] is_key(ks2[i], key)
                                && #[trigger] is_key(ks2[j], key) implies i == j by {
                            if i < ks.len() && j == ks.len() {
                                assert(is_key(ks[i], k.0) || (k.1 matches Some(a) && is_key(ks[i], a)));
                            }
                            if j < ks.len() && i == ks.len() {
                                assert(is_key(ks[j], k.0) || (k.1 matches Some(a) && is_key(ks[j], a)));
                            }
                        }
                    }
                }
            }
        }
    }
}

/// One row of the LCID table: tag, alias, script, region, identifier.
pub type LcidView = (Seq<char>, Option<Seq<char>>, Option<Seq<char>>, Option<Seq<char>>, u32);

pub open spec fn view_key(r: LcidView) -> LcidKey {
    (r.0, r.2, r.3)
}

/// Two uppercase ASCII letters or three ASCII digits.
pub open spec fn is_region_code(f: Seq<char>) -> bool {
    (f.len() == 2 && forall|i: int| 0 <= i < 2 ==> crate::text::is_upper(#[trigger] f[i])) || (f.len()
        == 3 && forall|i: int| 0 <= i < 3 ==> crate::text::is_ascii_digit(#[trigger] f[i]))
}

/// One or more ASCII digits.
pub open spec fn is_decimal(f: Seq<char>) -> bool {
    f.len() >= 1 && forall|i: int| 0 <= i < f.len() ==> crate::text::is_ascii_digit(#[trigger] f[i])
}

pub open spec fn lcid_row(f: Seq<Seq<char>>) -> Option<LcidView> {
    if f.len() == 5 && is_lower_word(f[0], 3) && (optional(f[1]) matches Some(t) ==> is_lower_word(
        t,
        2,
    )) && (optional(f[2]) matches Some(t) ==> is_script_code(t)) && (optional(f[3]) matches Some(t)
        ==> is_region_code(t)) && is_decimal(f[4]) && value(decimal(), f[4]) <= u32::MAX {
        Some((f[0], optional(f[1]), optional(f[2]), optional(f[3]), value(decimal(), f[4]) as u32))
    } else {
        None
    }
}

/// `x` placed before the first record whose key is greater than its own.
pub open spec fn sorted_insert(t: Seq<LcidView>, x: LcidView) -> Seq<LcidView>
    decreases t.len(),
{
    if t.len() == 0 {
        seq![x]
    } else if key_lt(view_key(x), view_key(t[0])) {
        seq![x] + t
    } else {
        seq![t[0]] + sorted_insert(t.drop_first(), x)
    }
}

/// The records that lines `1..n` make, sorted by key, blank lines skipped;
/// or the first line that is refused.
pub open spec fn lcids_upto(lines: Seq<Seq<char>>, n: nat) -> Result<Seq<LcidView>, CompileError>
    decreases n,
{
    if n <= 1 || n > lines.len() {
        Ok(Seq::empty())
    } else {
        match lcids_upto(lines, (n - 1) as nat) {
            Err(e) => Err(e),
            Ok(rs) => {
                let l = lines[n - 1];
                if l.len() == 0 {
                    Ok(rs)
                } else {
                    match lcid_row(split(l, '\t')) {
                        None => Err(CompileError::BadRow(n as usize)),
                        Some(r) => if exists|j: int|
                            0 <= j < rs.len() && view_key(#[trigger] rs[j]) == view_key(r) {
                            Err(CompileError::DuplicateKey(n as usize))
                        } else {
                            Ok(sorted_insert(rs, r))
                        },
                    }
                }
            },
        }
    }
}

/// The records that a whole text makes, or the first line refused.
pub open spec fn lcids_of(text: Seq<char>) -> Result<Seq<LcidView>, CompileError> {
    lcids_upto(split(text, '\n'), split(text, '\n').len())
}

proof fn lemma_lcid_refusal_stays(lines: Seq<Seq<char>>, n: nat, m: nat)
    requires
        n <= m <= lines.len(),
        lcids_upto(lines, n) is Err,
    ensures
        lcids_upto(lines, m) == lcids_upto(lines, n),
    decreases m - n,
{
    if n < m {
        lemma_lcid_refusal_stays(lines, n, (m - 1) as nat);
    }
}

/// Inserting at the first position whose key is greater is `sorted_insert`.
proof fn lemma_sorted_insert_at(t: Seq<LcidView>, x: LcidView, i: int)
    requires
        0 <= i <= t.len(),
        forall|j: int| 0 <= j < i ==> !key_lt(view_key(x), view_key(#[trigger] t[j])),
        i < t.len() ==> key_lt(view_key(x), view_key(t[i])),
    ensures
        sorted_insert(t, x) == t.insert(i, x),
    decreases t.len(),
{
    if t.len() == 0 {
        assert(t.insert(i, x) =~= seq![x]);
    } else if i == 0 {
        assert(t.insert(i, x) =~= seq![x] + t);
    } else {
        assert(!key_lt(view_key(x), view_key(t[0])));
        let u = t.drop_first();
        assert forall|j: int| 0 <= j < i - 1 implies !key_lt(view_key(x), view_key(#[trigger] u[j])) by {
            assert(u[j] == t[j + 1]);
        }
        lemma_sorted_insert_at(u, x, i - 1);
        assert(t.insert(i, x) =~= seq![t[0]] + u.insert(i - 1, x));
    }
}

/// A compiled row of the LCID table.
#[derive(Debug)]
pub struct LcidRow {
    pub tag3: String,
    pub tag1: Option<String>,
    pub script: Option<String>,
    pub region: Option<String>,
    pub lcid: u32,
}

impl View for LcidRow {
    type V = LcidView;

    open spec fn view(&self) -> LcidView {
        (self.tag3@, string_opt(self.tag1), string_opt(self.script), string_opt(self.region), self.lcid)
    }
}

pub open spec fn lcid_views(t: Seq<LcidRow>) -> Seq<LcidView> {
    t.map_values(|r: LcidRow| r@)
}

fn region_code(f: &Vec<char>) -> (r: bool)
    ensures
        r == is_region_code(f@),
{
    if f.len() == 2 {
        let ok = 'A' <= f[0] && f[0] <= 'Z' && 'A' <= f[1] && f[1] <= 'Z';
        proof {
            if ok {
                assert(forall|i: int| 0 <= i < 2 ==> crate::text::is_upper(#[trigger] f@[i]));
            }
        }
        ok
    } else if f.len() == 3 {
        let ok = '0' <= f[0] && f[0] <= '9' && '0' <= f[1] && f[1] <= '9' && '0' <= f[2] && f[2] <= '9';
        proof {
            if ok {
                assert(forall|i: int| 0 <= i < 3 ==> crate::text::is_ascii_digit(#[trigger] f@[i]));
            }
        }
        ok
    } else {
        false
    }
}

/// The decimal number that `f` writes, where it is one and fits `u32`.
fn decimal_u32(f: &Vec<char>) -> (r: Option<u32>)
    ensures
        r == (if is_decimal(f@) && value(decimal(), f@) <= u32::MAX {
            Some(value(decimal(), f@) as u32)
        } else {
            None
        }),
{
    if f.len() == 0 {
        return None;
    }
    let big: u64 = 0x1_0000_0000;
    let mut acc: u64 = 0;
    let mut i: usize = 0;
    while i < f.len()
        invariant
            i <= f.len(),
            big == 0x1_0000_0000u64,
            forall|j: int| 0 <= j < i ==> crate::text::is_ascii_digit(#[trigger] f@[j]),
            acc == (if value(decimal(), f@.subrange(0, i as int)) < big {
                value(decimal(), f@.subrange(0, i as int))
            } else {
                big as nat
            }),
        decreases f.len() - i,
    {
        let c = f[i];
        if !('0' <= c && c <= '9') {
            return None;
        }
        proof {
            let p = f@.subrange(0, i + 1);
            assert(p.drop_last() =~= f@.subrange(0, i as int));
            assert(p.last() == c);
            lemma_run_index('0', 10, c);
        }
        let d = (c as u32 - '0' as u32) as u64;
        let next = acc * 10 + d;
        acc = if next < big { next } else { big };
        i = i + 1;
    }
    proof {
        assert(f@.subrange(0, f@.len() as int) =~= f@);
    }
    if acc < big {
        Some(acc as u32)
    } else {
        None
    }
}

fn same_key(r: &LcidRow, x: &LcidRow) -> (b: bool)
    ensures
        b == (view_key(r@) == view_key(x@)),
{
    crate::text::str_eq(r.tag3.as_str(), x.tag3.as_str())
        && crate::text::compare_opt_str(opt_as_str(&r.script), opt_as_str(&x.script)) == 0
        && crate::text::compare_opt_str(opt_as_str(&r.region), opt_as_str(&x.region)) == 0
}

/// Whether the key of `x` comes before the key of `r`.
fn key_before(x: &LcidRow, r: &LcidRow) -> (b: bool)
    ensures
        b == key_lt(view_key(x@), view_key(r@)),
{
    let c = crate::text::compare_str(x.tag3.as_str(), r.tag3.as_str());
    if c != 0 {
        return c == -1;
    }
    let c = crate::text::compare_opt_str(opt_as_str(&x.script), opt_as_str(&r.script));
    if c != 0 {
        return c == -1;
    }
    crate::text::compare_opt_str(opt_as_str(&x.region), opt_as_str(&r.region)) == -1
}

/// Compiles the LCID table: columns tag3, tag1, script, region, decimal
/// identifier.  The records come out sorted by (tag3, script, region).
pub fn compile_lcids(tsv: &str) -> (r: Result<Vec<LcidRow>, CompileError>)
    ensures
        match r {
            Ok(t) => lcids_of(tsv@) == Ok::<_, CompileError>(lcid_views(t@)),
            Err(e) => lcids_of(tsv@) == Err::<Seq<LcidView>, _>(e),
        },
{
    let text = chars_of(tsv);
    let lines = split_chars(&text, '\n');
    let mut rows: Vec<LcidRow> = Vec::new();
    let mut i: usize = 1;
    proof {
        lemma_split_len(tsv@, '\n');
        assert(lcid_views(rows@) =~= Seq::<LcidView>::empty());
    }
    while i < lines.len()
        invariant
            views(lines@) == split(tsv@, '\n'),
            1 <= i <= lines.len(),
            lcids_upto(views(lines@), i as nat) == Ok::<_, CompileError>(lcid_views(rows@)),
        decreases lines.len() - i,
    {
        let line = &lines[i];
        proof {
            assert(views(lines@)[i as int] == line@);
        }
        if line.len() > 0 {
            let f = split_chars(line, '\t');
            proof {
                assert(f@.len() == 5 ==> views(f@)[0] == f@[0]@ && views(f@)[1] == f@[1]@ && views(f@)[2] == f@[2]@ && views(f@)[3] == f@[3]@ && views(f@)[4] == f@[4]@);
            }
            let mut ok = f.len() == 5 && lower_word(&f[0], 3);
            if ok {
                if optional_field(&f[1]).is_some() && !lower_word(&f[1], 2) {
                    ok = false;
                }
                if optional_field(&f[2]).is_some() && !script_code(&f[2]) {
                    ok = false;
                }
                if optional_field(&f[3]).is_some() && !region_code(&f[3]) {
                    ok = false;
                }
            }
            let number = if ok { decimal_u32(&f[4]) } else { None };
            let lcid = match number {
                Some(v) => v,
                None => {
                    proof {
                        lemma_lcid_refusal_stays(views(lines@), (i + 1) as nat, lines@.len());
                    }
                    return Err(CompileError::BadRow(i + 1));
                },
            };
            let row = LcidRow {
                tag3: string_from_chars(&f[0]),
                tag1: optional_field(&f[1]),
                script: optional_field(&f[2]),
                region: optional_field(&f[3]),
                lcid,
            };
            let ghost prev = lcid_views(rows@);
            proof {
                assert(lcid_row(split(line@, '\t')) == Some(row@));
            }
            let mut j: usize = 0;
            while j < rows.len()
                invariant
                    j <= rows.len(),
                    prev == lcid_views(rows@),
                    i < lines.len(),
                    views(lines@) == split(tsv@, '\n'),
                    views(lines@)[i as int] == line@,
                    line@.len() > 0,
                    lcids_upto(views(lines@), i as nat) == Ok::<_, CompileError>(prev),
                    lcid_row(split(line@, '\t')) == Some(row@),
                    forall|k: int| 0 <= k < j ==> view_key(#[trigger] prev[k]) != view_key(row@),
                decreases rows.len() - j,
            {
                if same_key(&rows[j], &row) {
                    proof {
                        assert(view_key(prev[j as int]) == view_key(row@));
                        let ls = views(lines@);
                        let n1 = (i + 1) as nat;
                        assert(ls[n1 - 1] == line@);
                        assert(lcids_upto(ls, (n1 - 1) as nat) == Ok::<_, CompileError>(prev));
                        assert(lcid_row(split(ls[n1 - 1], '\t')) == Some(row@));
                        assert(exists|k: int| 0 <= k < prev.len() && view_key(#[trigger] prev[k]) == view_key(row@));
                        assert(lcids_upto(ls, n1) is Err);
                        lemma_lcid_refusal_stays(views(lines@), (i + 1) as nat, lines@.len());
                    }
                    return Err(CompileError::DuplicateKey(i + 1));
                }
                j = j + 1;
            }
            let mut p: usize = 0;
            while p < rows.len() && !key_before(&row, &rows[p])
                invariant
                    p <= rows.len(),
                    prev == lcid_views(rows@),
                    i < lines.len(),
                    views(lines@) == split(tsv@, '\n'),
                    views(lines@)[i as int] == line@,
                    line@.len() > 0,
                    lcids_upto(views(lines@), i as nat) == Ok::<_, CompileError>(prev),
                    lcid_row(split(line@, '\t')) == Some(row@),
                    forall|k: int| 0 <= k < prev.len() ==> view_key(#[trigger] prev[k]) != view_key(row@),
                    forall|k: int| 0 <= k < p ==> !key_lt(view_key(row@), view_key(#[trigger] prev[k])),
                decreases rows.len() - p,
            {
                p = p + 1;
            }
            proof {
                lemma_sorted_insert_at(prev, row@, p as int);
            }
            rows.insert(p, row);
            proof {
                assert(lcid_views(rows@) =~= prev.insert(p as int, row@));
            }
        }
        i = i + 1;
    }
    Ok(rows)
}

/// Keys strictly ascending.
pub open spec fn strictly_sorted(t: Seq<LcidView>) -> bool {
    forall|i: int, j: int| 0 <= i < j < t.len() ==> key_lt(view_key(#[trigger] t[i]), view_key(#[trigger] t[j]))
}

proof fn lemma_insert_above(t: Seq<LcidView>, x: LcidView, b: LcidKey)
    requires
        key_lt(b, view_key(x)),
        forall|j: int| 0 <= j < t.len() ==> key_lt(b, view_key(#[trigger] t[j])),
    ensures
        sorted_insert(t, x).len() == t.len() + 1,
        forall|k: int| 0 <= k < sorted_insert(t, x).len() ==> key_lt(b, view_key(#[trigger] sorted_insert(t, x)[k])),
    decreases t.len(),
{
    if t.len() > 0 && !key_lt(view_key(x), view_key(t[0])) {
        let u = t.drop_first();
        assert forall|j: int| 0 <= j < u.len() implies key_lt(b, view_key(#[trigger] u[j])) by {
            assert(u[j] == t[j + 1]);
        }
        lemma_insert_above(u, x, b);
        let r = sorted_insert(t, x);
        assert forall|k: int| 0 <= k < r.len() implies key_lt(b, view_key(#[trigger] r[k])) by {
            if k > 0 {
                assert(r[k] == sorted_insert(u, x)[k - 1]);
            }
        }
    }
}

/// Inserting a record whose key is new keeps the keys strictly ascending.
proof fn lemma_sorted_insert_sorted(t: Seq<LcidView>, x: LcidView)
    requires
        strictly_sorted(t),
        forall|j: int| 0 <= j < t.len() ==> view_key(#[trigger] t[j]) != view_key(x),
    ensures
        strictly_sorted(sorted_insert(t, x)),
    decreases t.len(),
{
    if t.len() > 0 {
        let r = sorted_insert(t, x);
        if key_lt(view_key(x), view_key(t[0])) {
            assert forall|i: int, j: int| 0 <= i < j < r.len() implies key_lt(view_key(#[trigger] r[i]), view_key(#[trigger] r[j])) by {
                if i == 0 {
                    assert(r[j] == t[j - 1]);
                    if j > 1 {
                        lemma_key_lt_transitive(view_key(x), view_key(t[0]), view_key(t[j - 1]));
                    }
                } else {
                    assert(r[i] == t[i - 1] && r[j] == t[j - 1]);
                }
            }
        } else {
            let u = t.drop_first();
            assert forall|j: int| 0 <= j < u.len() implies view_key(#[trigger] u[j]) != view_key(x) by {
                assert(u[j] == t[j + 1]);
            }
            assert forall|i: int, j: int| 0 <= i < j < u.len() implies key_lt(view_key(#[trigger] u[i]), view_key(#[trigger] u[j])) by {
                assert(u[i] == t[i + 1] && u[j] == t[j + 1]);
            }
            lemma_sorted_insert_sorted(u, x);
            lemma_key_lt_total(view_key(x), view_key(t[0]));
            assert forall|j: int| 0 <= j < u.len() implies key_lt(view_key(t[0]), view_key(#[trigger] u[j])) by {
                assert(u[j] == t[j + 1]);
            }
            lemma_insert_above(u, x, view_key(t[0]));
            let s = sorted_insert(u, x);
            assert forall|i: int, j: int| 0 <= i < j < r.len() implies key_lt(view_key(#[trigger] r[i]), view_key(#[trigger] r[j])) by {
                assert(r[j] == s[j - 1]);
                if i > 0 {
                    assert(r[i] == s[i - 1]);
                }
            }
        }
    }
}

/// A compiled LCID table has strictly ascending keys, so no key is there
/// twice and binary search by key is sound.
pub proof fn lemma_compiled_lcids_sorted(lines: Seq<Seq<char>>, n: nat)
    ensures
        lcids_upto(lines, n) matches Ok(rs) ==> strictly_sorted(rs),
    decreases n,
{
    if n > 1 && n <= lines.len() {
        lemma_compiled_lcids_sorted(lines, (n - 1) as nat);
        if let Ok(rs) = lcids_upto(lines, (n - 1) as nat) {
            let l = lines[n - 1];
            if l.len() != 0 {
                if let Some(r) = lcid_row(split(l, '\t')) {
                    if !(exists|j: int| 0 <= j < rs.len() && view_key(#[trigger] rs[j]) == view_key(r)) {
                        lemma_sorted_insert_sorted(rs, r);
                    }
                }
            }
        }
    }
}

} // verus!
