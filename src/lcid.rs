//! Windows locale identifiers (LCIDs) of (language, script, region)
//! combinations.
use vstd::prelude::*;
use crate::autonym;
use crate::text::{
    compare_opt_str, compare_str, lemma_seq_lt_asymmetric, lemma_seq_lt_irreflexive,
    lemma_seq_lt_total, lemma_seq_lt_transitive, opt_lt,
    opt_view, seq_lt,
};

verus! {

/// One locale: the language's tags, the script and region that narrow it,
/// and its identifier.
#[derive(Debug, Clone, Copy)]
pub struct Record {
    pub tag3: &'static str,
    pub tag1: Option<&'static str>,
    pub script: Option<&'static str>,
    pub region: Option<&'static str>,
    pub lcid: u32,
}

/// A composite key: three-letter tag, optional script, optional region.
pub type LcidKey = (Seq<char>, Option<Seq<char>>, Option<Seq<char>>);

pub open spec fn key_of(r: Record) -> LcidKey {
    (r.tag3@, opt_view(r.script), opt_view(r.region))
}

/// Lexicographic order on keys; an absent part comes before a present one.
pub open spec fn key_lt(a: LcidKey, b: LcidKey) -> bool {
    seq_lt(a.0, b.0) || (a.0 == b.0 && (opt_lt(a.1, b.1) || (a.1 == b.1 && opt_lt(a.2, b.2))))
}

pub proof fn lemma_key_lt_asymmetric(a: LcidKey, b: LcidKey)
    ensures
        !(key_lt(a, b) && key_lt(b, a)),
        !key_lt(a, a),
{
    lemma_seq_lt_asymmetric(a.0, b.0);
    lemma_seq_lt_irreflexive(a.0);
    if let (Some(x), Some(y)) = (a.1, b.1) {
        lemma_seq_lt_asymmetric(x, y);
        lemma_seq_lt_irreflexive(x);
    }
    if let (Some(x), Some(y)) = (a.2, b.2) {
        lemma_seq_lt_asymmetric(x, y);
        lemma_seq_lt_irreflexive(x);
    }
    if let Some(x) = a.1 {
        lemma_seq_lt_irreflexive(x);
    }
    if let Some(x) = a.2 {
        lemma_seq_lt_irreflexive(x);
    }
}

pub proof fn lemma_key_lt_transitive(a: LcidKey, b: LcidKey, c: LcidKey)
    requires
        key_lt(a, b),
        key_lt(b, c),
    ensures
        key_lt(a, c),
{
    if seq_lt(a.0, b.0) && seq_lt(b.0, c.0) {
        lemma_seq_lt_transitive(a.0, b.0, c.0);
    }
    if let (Some(x), Some(y), Some(z)) = (a.1, b.1, c.1) {
        if seq_lt(x, y) && seq_lt(y, z) {
            lemma_seq_lt_transitive(x, y, z);
        }
    }
    if let (Some(x), Some(y), Some(z)) = (a.2, b.2, c.2) {
        if seq_lt(x, y) && seq_lt(y, z) {
            lemma_seq_lt_transitive(x, y, z);
        }
    }
}

pub proof fn lemma_key_lt_total(a: LcidKey, b: LcidKey)
    ensures
        a == b || key_lt(a, b) || key_lt(b, a),
{
    lemma_seq_lt_total(a.0, b.0);
    if let (Some(x), Some(y)) = (a.1, b.1) {
        lemma_seq_lt_total(x, y);
    }
    if let (Some(x), Some(y)) = (a.2, b.2) {
        lemma_seq_lt_total(x, y);
    }
}

/// The registry, in strictly ascending order of key.
pub open spec fn lcids() -> Seq<Record> {
    seq![
        Record { tag3: "ara", tag1: Some("ar"), script: None, region: Some("SA"), lcid: 1025 },
        Record { tag3: "ben", tag1: Some("bn"), script: None, region: Some("BD"), lcid: 2117 },
        Record { tag3: "ben", tag1: Some("bn"), script: None, region: Some("IN"), lcid: 1093 },
        Record { tag3: "chr", tag1: None, script: Some("Cher"), region: Some("US"), lcid: 1116 },
        Record { tag3: "deu", tag1: Some("de"), script: None, region: Some("AT"), lcid: 3079 },
        Record { tag3: "deu", tag1: Some("de"), script: None, region: Some("CH"), lcid: 2055 },
        Record { tag3: "deu", tag1: Some("de"), script: None, region: Some("DE"), lcid: 1031 },
        Record { tag3: "eng", tag1: Some("en"), script: None, region: Some("AU"), lcid: 3081 },
        Record { tag3: "eng", tag1: Some("en"), script: None, region: Some("CA"), lcid: 4105 },
        Record { tag3: "eng", tag1: Some("en"), script: None, region: Some("GB"), lcid: 2057 },
        Record { tag3: "eng", tag1: Some("en"), script: None, region: Some("US"), lcid: 1033 },
        Record { tag3: "fil", tag1: None, script: None, region: Some("PH"), lcid: 1124 },
        Record { tag3: "fra", tag1: Some("fr"), script: None, region: Some("CA"), lcid: 3084 },
        Record { tag3: "fra", tag1: Some("fr"), script: None, region: Some("FR"), lcid: 1036 },
        Record { tag3: "hin", tag1: Some("hi"), script: None, region: Some("IN"), lcid: 1081 },
        Record { tag3: "jpn", tag1: Some("ja"), script: None, region: Some("JP"), lcid: 1041 },
        Record { tag3: "kor", tag1: Some("ko"), script: None, region: Some("KR"), lcid: 1042 },
        Record { tag3: "nld", tag1: Some("nl"), script: None, region: Some("BE"), lcid: 2067 },
        Record { tag3: "nld", tag1: Some("nl"), script: None, region: Some("NL"), lcid: 1043 },
        Record { tag3: "nob", tag1: Some("nb"), script: None, region: Some("NO"), lcid: 1044 },
        Record { tag3: "por", tag1: Some("pt"), script: None, region: Some("BR"), lcid: 1046 },
        Record { tag3: "por", tag1: Some("pt"), script: None, region: Some("PT"), lcid: 2070 },
        Record { tag3: "rus", tag1: Some("ru"), script: None, region: Some("RU"), lcid: 1049 },
        Record { tag3: "sma", tag1: None, script: None, region: Some("NO"), lcid: 6203 },
        Record { tag3: "sma", tag1: None, script: None, region: Some("SE"), lcid: 7227 },
        Record { tag3: "sme", tag1: Some("se"), script: None, region: Some("FI"), lcid: 3131 },
        Record { tag3: "sme", tag1: Some("se"), script: None, region: Some("NO"), lcid: 1083 },
        Record { tag3: "sme", tag1: Some("se"), script: None, region: Some("SE"), lcid: 2107 },
        Record { tag3: "smj", tag1: None, script: None, region: Some("NO"), lcid: 4155 },
        Record { tag3: "smj", tag1: None, script: None, region: Some("SE"), lcid: 5179 },
        Record { tag3: "spa", tag1: Some("es"), script: None, region: Some("419"), lcid: 22538 },
        Record { tag3: "spa", tag1: Some("es"), script: None, region: Some("ES"), lcid: 3082 },
        Record { tag3: "spa", tag1: Some("es"), script: None, region: Some("MX"), lcid: 2058 },
        Record { tag3: "srp", tag1: Some("sr"), script: Some("Cyrl"), region: Some("RS"), lcid: 10266 },
        Record { tag3: "srp", tag1: Some("sr"), script: Some("Latn"), region: Some("RS"), lcid: 9242 },
        Record { tag3: "swe", tag1: Some("sv"), script: None, region: Some("FI"), lcid: 2077 },
        Record { tag3: "swe", tag1: Some("sv"), script: None, region: Some("SE"), lcid: 1053 },
        Record { tag3: "zho", tag1: Some("zh"), script: Some("Hans"), region: Some("CN"), lcid: 2052 },
        Record { tag3: "zho", tag1: Some("zh"), script: Some("Hans"), region: Some("SG"), lcid: 4100 },
        Record { tag3: "zho", tag1: Some("zh"), script: Some("Hant"), region: Some("HK"), lcid: 3076 },
        Record { tag3: "zho", tag1: Some("zh"), script: Some("Hant"), region: Some("TW"), lcid: 1028 },
    ]
}

/// Keys strictly ascending over the whole sequence, and no identifier twice.
pub open spec fn lcids_wf(t: Seq<Record>) -> bool {
    &&& forall|i: int, j: int| 0 <= i < j < t.len() ==> key_lt(key_of(#[trigger] t[i]), key_of(#[trigger] t[j]))
    &&& forall|i: int, j: int| 0 <= i < j < t.len() ==> (#[trigger] t[i]).lcid != (#[trigger] t[j]).lcid
}

pub proof fn lemma_lcids_wf()
    ensures
        lcids_wf(lcids()),
{
    reveal_strlit("419");
    reveal_strlit("AT");
    reveal_strlit("AU");
    reveal_strlit("BD");
    reveal_strlit("BE");
    reveal_strlit("BR");
    reveal_strlit("CA");
    reveal_strlit("CH");
    reveal_strlit("CN");
    reveal_strlit("Cher");
    reveal_strlit("Cyrl");
    reveal_strlit("DE");
    reveal_strlit("ES");
    reveal_strlit("FI");
    reveal_strlit("FR");
    reveal_strlit("GB");
    reveal_strlit("HK");
    reveal_strlit("Hans");
    reveal_strlit("Hant");
    reveal_strlit("IN");
    reveal_strlit("JP");
    reveal_strlit("KR");
    reveal_strlit("Latn");
    reveal_strlit("MX");
    reveal_strlit("NL");
    reveal_strlit("NO");
    reveal_strlit("PH");
    reveal_strlit("PT");
    reveal_strlit("RS");
    reveal_strlit("RU");
    reveal_strlit("SA");
    reveal_strlit("SE");
    reveal_strlit("SG");
    reveal_strlit("TW");
    reveal_strlit("US");
    reveal_strlit("ara");
    reveal_strlit("ben");
    reveal_strlit("chr");
    reveal_strlit("deu");
    reveal_strlit("eng");
    reveal_strlit("fil");
    reveal_strlit("fra");
    reveal_strlit("hin");
    reveal_strlit("jpn");
    reveal_strlit("kor");
    reveal_strlit("nld");
    reveal_strlit("nob");
    reveal_strlit("por");
    reveal_strlit("rus");
    reveal_strlit("sma");
    reveal_strlit("sme");
    reveal_strlit("smj");
    reveal_strlit("spa");
    reveal_strlit("srp");
    reveal_strlit("swe");
    reveal_strlit("zho");
    let t = lcids();
    assert(t.len() == 41);
    assert forall|i: int, j: int| 0 <= i < j < t.len() implies key_lt(key_of(#[trigger] t[i]), key_of(#[trigger] t[j])) by {
        reveal_with_fuel(seq_lt, 4);
    }
}

/// Each record's key is strictly greater than its predecessor's.
pub proof fn lemma_lcids_ascending()
    ensures
        forall|i: int| 0 < i < lcids().len() ==> key_lt(key_of(lcids()[i - 1]), key_of(#[trigger] lcids()[i])),
{
    lemma_lcids_wf();
    assert forall|i: int| 0 < i < lcids().len() implies key_lt(key_of(lcids()[i - 1]), key_of(#[trigger] lcids()[i])) by {
        assert(0 <= i - 1 < i);
    }
}

/// The position of the record with key `k`, if any.
pub open spec fn position(k: LcidKey) -> Option<int> {
    if exists|i: int| 0 <= i < lcids().len() && key_of(#[trigger] lcids()[i]) == k {
        Some(choose|i: int| 0 <= i < lcids().len() && key_of(#[trigger] lcids()[i]) == k)
    } else {
        None
    }
}

/// The key that a query stands for: the tag made canonical through the
/// autonym registry, and the script and region as given.
pub open spec fn query_key(tag: Seq<char>, script: Option<Seq<char>>, region: Option<Seq<char>>) -> Option<LcidKey> {
    match autonym::lookup(tag) {
        Some(a) => Some((a.tag3@, script, region)),
        None => None,
    }
}

/// The record that a query finds.
pub open spec fn lookup(tag: Seq<char>, script: Option<Seq<char>>, region: Option<Seq<char>>) -> Option<Record> {
    match query_key(tag, script, region) {
        Some(k) => match position(k) {
            Some(i) => Some(lcids()[i]),
            None => None,
        },
        None => None,
    }
}

/// The record with identifier `lcid`, if any.
pub open spec fn lookup_lcid(lcid: u32) -> Option<Record> {
    if exists|i: int| 0 <= i < lcids().len() && (#[trigger] lcids()[i]).lcid == lcid {
        Some(lcids()[choose|i: int| 0 <= i < lcids().len() && (#[trigger] lcids()[i]).lcid == lcid])
    } else {
        None
    }
}

/// No two records share a key.
pub proof fn lemma_key_unique(i: int, j: int)
    requires
        0 <= i < lcids().len(),
        0 <= j < lcids().len(),
        key_of(lcids()[i]) == key_of(lcids()[j]),
    ensures
        i == j,
{
    lemma_lcids_wf();
    if i < j {
        assert(key_lt(key_of(lcids()[i]), key_of(lcids()[j])));
        lemma_key_lt_asymmetric(key_of(lcids()[i]), key_of(lcids()[j]));
    } else if j < i {
        assert(key_lt(key_of(lcids()[j]), key_of(lcids()[i])));
        lemma_key_lt_asymmetric(key_of(lcids()[i]), key_of(lcids()[j]));
    }
}

/// For a known tag, a query finds the record at `i` exactly when that
/// record's key is the query's canonical key; and no other record has it.
pub proof fn lemma_lookup_exact(tag: Seq<char>, script: Option<Seq<char>>, region: Option<Seq<char>>, i: int)
    requires
        0 <= i < lcids().len(),
    ensures
        lookup(tag, script, region) == Some(lcids()[i]) <==> query_key(tag, script, region) == Some(key_of(lcids()[i])),
        query_key(tag, script, region) == Some(key_of(lcids()[i])) ==> forall|j: int|
            0 <= j < lcids().len() && key_of(#[trigger] lcids()[j]) == key_of(lcids()[i]) ==> j == i,
        autonym::lookup(tag) is None ==> lookup(tag, script, region) is None,
{
    if let Some(k) = query_key(tag, script, region) {
        if let Some(c) = position(k) {
            if lcids()[c] == lcids()[i] {
                assert(key_of(lcids()[i]) == k);
            }
        }
        if key_of(lcids()[i]) == k {
            let c = position(k)->0;
            lemma_key_unique(i, c);
        }
    }
    assert forall|j: int| 0 <= j < lcids().len() && key_of(#[trigger] lcids()[j]) == key_of(lcids()[i]) implies j == i by {
        lemma_key_unique(i, j);
    }
}

fn records() -> (t: Vec<Record>)
    ensures
        t@ == lcids(),
{
    let t = vec![
        Record { tag3: "ara", tag1: Some("ar"), script: None, region: Some("SA"), lcid: 1025 },
        Record { tag3: "ben", tag1: Some("bn"), script: None, region: Some("BD"), lcid: 2117 },
        Record { tag3: "ben", tag1: Some("bn"), script: None, region: Some("IN"), lcid: 1093 },
        Record { tag3: "chr", tag1: None, script: Some("Cher"), region: Some("US"), lcid: 1116 },
        Record { tag3: "deu", tag1: Some("de"), script: None, region: Some("AT"), lcid: 3079 },
        Record { tag3: "deu", tag1: Some("de"), script: None, region: Some("CH"), lcid: 2055 },
        Record { tag3: "deu", tag1: Some("de"), script: None, region: Some("DE"), lcid: 1031 },
        Record { tag3: "eng", tag1: Some("en"), script: None, region: Some("AU"), lcid: 3081 },
        Record { tag3: "eng", tag1: Some("en"), script: None, region: Some("CA"), lcid: 4105 },
        Record { tag3: "eng", tag1: Some("en"), script: None, region: Some("GB"), lcid: 2057 },
        Record { tag3: "eng", tag1: Some("en"), script: None, region: Some("US"), lcid: 1033 },
        Record { tag3: "fil", tag1: None, script: None, region: Some("PH"), lcid: 1124 },
        Record { tag3: "fra", tag1: Some("fr"), script: None, region: Some("CA"), lcid: 3084 },
        Record { tag3: "fra", tag1: Some("fr"), script: None, region: Some("FR"), lcid: 1036 },
        Record { tag3: "hin", tag1: Some("hi"), script: None, region: Some("IN"), lcid: 1081 },
        Record { tag3: "jpn", tag1: Some("ja"), script: None, region: Some("JP"), lcid: 1041 },
        Record { tag3: "kor", tag1: Some("ko"), script: None, region: Some("KR"), lcid: 1042 },
        Record { tag3: "nld", tag1: Some("nl"), script: None, region: Some("BE"), lcid: 2067 },
        Record { tag3: "nld", tag1: Some("nl"), script: None, region: Some("NL"), lcid: 1043 },
        Record { tag3: "nob", tag1: Some("nb"), script: None, region: Some("NO"), lcid: 1044 },
        Record { tag3: "por", tag1: Some("pt"), script: None, region: Some("BR"), lcid: 1046 },
        Record { tag3: "por", tag1: Some("pt"), script: None, region: Some("PT"), lcid: 2070 },
        Record { tag3: "rus", tag1: Some("ru"), script: None, region: Some("RU"), lcid: 1049 },
        Record { tag3: "sma", tag1: None, script: None, region: Some("NO"), lcid: 6203 },
        Record { tag3: "sma", tag1: None, script: None, region: Some("SE"), lcid: 7227 },
        Record { tag3: "sme", tag1: Some("se"), script: None, region: Some("FI"), lcid: 3131 },
        Record { tag3: "sme", tag1: Some("se"), script: None, region: Some("NO"), lcid: 1083 },
        Record { tag3: "sme", tag1: Some("se"), script: None, region: Some("SE"), lcid: 2107 },
        Record { tag3: "smj", tag1: None, script: None, region: Some("NO"), lcid: 4155 },
        Record { tag3: "smj", tag1: None, script: None, region: Some("SE"), lcid: 5179 },
        Record { tag3: "spa", tag1: Some("es"), script: None, region: Some("419"), lcid: 22538 },
        Record { tag3: "spa", tag1: Some("es"), script: None, region: Some("ES"), lcid: 3082 },
        Record { tag3: "spa", tag1: Some("es"), script: None, region: Some("MX"), lcid: 2058 },
        Record { tag3: "srp", tag1: Some("sr"), script: Some("Cyrl"), region: Some("RS"), lcid: 10266 },
        Record { tag3: "srp", tag1: Some("sr"), script: Some("Latn"), region: Some("RS"), lcid: 9242 },
        Record { tag3: "swe", tag1: Some("sv"), script: None, region: Some("FI"), lcid: 2077 },
        Record { tag3: "swe", tag1: Some("sv"), script: None, region: Some("SE"), lcid: 1053 },
        Record { tag3: "zho", tag1: Some("zh"), script: Some("Hans"), region: Some("CN"), lcid: 2052 },
        Record { tag3: "zho", tag1: Some("zh"), script: Some("Hans"), region: Some("SG"), lcid: 4100 },
        Record { tag3: "zho", tag1: Some("zh"), script: Some("Hant"), region: Some("HK"), lcid: 3076 },
        Record { tag3: "zho", tag1: Some("zh"), script: Some("Hant"), region: Some("TW"), lcid: 1028 },
    ];
    assert(t@ =~= lcids());
    t
}

/// Three-way comparison of a record's key with the key `(tag3, script,
/// region)`.
fn compare_key(r: &Record, tag3: &str, script: Option<&str>, region: Option<&str>) -> (c: i8)
    ensures
        c == -1 <==> key_lt(key_of(*r), (tag3@, opt_view(script), opt_view(region))),
        c == 0 <==> key_of(*r) == (tag3@, opt_view(script), opt_view(region)),
        c == 1 <==> key_lt((tag3@, opt_view(script), opt_view(region)), key_of(*r)),
        -1 <= c <= 1,
{
    proof {
        lemma_key_lt_asymmetric(key_of(*r), (tag3@, opt_view(script), opt_view(region)));
    }
    let c = compare_str(r.tag3, tag3);
    if c != 0 {
        return c;
    }
    let c = compare_opt_str(r.script, script);
    if c != 0 {
        return c;
    }
    compare_opt_str(r.region, region)
}

/// The locale of a language, given by ISO 639-3 tag or ISO 639-1 alias,
/// with the script and region compared exactly as written.
pub fn get(tag: &str, script: Option<&str>, region: Option<&str>) -> (r: Option<Record>)
    ensures
        r == lookup(tag@, opt_view(script), opt_view(region)),
{
    let tag3 = match autonym::get(tag) {
        Some(a) => a.tag3,
        None => return None,
    };
    let ghost k = (tag3@, opt_view(script), opt_view(region));
    let t = records();
    proof {
        lemma_lcids_wf();
    }
    let mut lo: usize = 0;
    let mut hi: usize = t.len();
    while lo < hi
        invariant
            t@ == lcids(),
            lcids_wf(lcids()),
            lo <= hi <= t.len(),
            k == (tag3@, opt_view(script), opt_view(region)),
            query_key(tag@, opt_view(script), opt_view(region)) == Some(k),
            forall|j: int| 0 <= j < lo ==> key_lt(key_of(#[trigger] t@[j]), k),
            forall|j: int| hi <= j < t.len() ==> key_lt(k, key_of(#[trigger] t@[j])),
        decreases hi - lo,
    {
        let mid = lo + (hi - lo) / 2;
        let c = compare_key(&t[mid], tag3, script, region);
        if c == 0 {
            proof {
                assert(key_of(lcids()[mid as int]) == k);
                let p = choose|i: int| 0 <= i < lcids().len() && key_of(#[trigger] lcids()[i]) == k;
                lemma_key_unique(mid as int, p);
            }
            return Some(t[mid]);
        } else if c == -1 {
            proof {
                assert forall|j: int| 0 <= j <= mid implies key_lt(key_of(#[trigger] t@[j]), k) by {
                    if j < mid {
                        assert(key_lt(key_of(t@[j]), key_of(t@[mid as int])));
                        lemma_key_lt_transitive(key_of(t@[j]), key_of(t@[mid as int]), k);
                    }
                }
            }
            lo = mid + 1;
        } else {
            proof {
                assert forall|j: int| mid <= j < t.len() implies key_lt(k, key_of(#[trigger] t@[j])) by {
                    if j > mid {
                        assert(key_lt(key_of(t@[mid as int]), key_of(t@[j])));
                        lemma_key_lt_transitive(k, key_of(t@[mid as int]), key_of(t@[j]));
                    }
                }
            }
            hi = mid;
        }
    }
    proof {
        assert forall|i: int| 0 <= i < lcids().len() implies key_of(#[trigger] lcids()[i]) != k by {
            lemma_key_lt_asymmetric(key_of(lcids()[i]), k);
        }
    }
    None
}

/// The locale with identifier `lcid`.
pub fn get_by_lcid(lcid: u32) -> (r: Option<Record>)
    ensures
        r == lookup_lcid(lcid),
{
    let t = records();
    let mut i: usize = 0;
    while i < t.len()
        invariant
            t@ == lcids(),
            0 <= i <= t.len(),
            forall|j: int| 0 <= j < i ==> (#[trigger] t@[j]).lcid != lcid,
        decreases t.len() - i,
    {
        if t[i].lcid == lcid {
            proof {
                lemma_lcids_wf();
                let p = choose|p: int| 0 <= p < lcids().len() && (#[trigger] lcids()[p]).lcid == lcid;
                if p != i {
                    if p < i {
                        assert(t@[p].lcid != lcid);
                    } else {
                        assert(lcids()[i as int].lcid != lcids()[p].lcid);
                    }
                }
            }
            return Some(t[i]);
        }
        i = i + 1;
    }
    None
}

} // verus!
