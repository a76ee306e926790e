//! English names and autonyms, keyed by ISO 639-3 tag or ISO 639-1 alias.
use vstd::prelude::*;
use crate::alias::{TagKeys, find, is_key, keys_wf, lemma_aliases_agree, lemma_find_at};
use crate::text::{opt_view, str_eq};

verus! {

/// One language: its tags, its English name, its name in its own language
/// where known, and where the entry comes from.
#[derive(Debug, Clone, Copy)]
pub struct Record {
    pub tag3: &'static str,
    pub tag1: Option<&'static str>,
    pub name: &'static str,
    pub autonym: Option<&'static str>,
    pub source: &'static str,
}

/// The lookup keys of each record.
pub open spec fn keys_of(t: Seq<Record>) -> Seq<TagKeys> {
    t.map_values(|r: Record| (r.tag3@, opt_view(r.tag1)))
}

/// The registry, in ascending order of three-letter tag.
pub open spec fn autonyms() -> Seq<Record> {
    seq![
        Record { tag3: "ara", tag1: Some("ar"), name: "Arabic", autonym: Some("العربية"), source: "cldr" },
        Record { tag3: "ben", tag1: Some("bn"), name: "Bengali", autonym: Some("বাংলা"), source: "cldr" },
        Record { tag3: "chr", tag1: None, name: "Cherokee", autonym: Some("ᏣᎳᎩ"), source: "cldr" },
        Record { tag3: "deu", tag1: Some("de"), name: "German", autonym: Some("Deutsch"), source: "cldr" },
        Record { tag3: "eng", tag1: Some("en"), name: "English", autonym: Some("English"), source: "cldr" },
        Record { tag3: "fil", tag1: None, name: "Filipino", autonym: Some("Filipino"), source: "cldr" },
        Record { tag3: "fra", tag1: Some("fr"), name: "French", autonym: Some("français"), source: "cldr" },
        Record { tag3: "hin", tag1: Some("hi"), name: "Hindi", autonym: Some("हिन्दी"), source: "cldr" },
        Record { tag3: "jpn", tag1: Some("ja"), name: "Japanese", autonym: Some("日本語"), source: "cldr" },
        Record { tag3: "kor", tag1: Some("ko"), name: "Korean", autonym: Some("한국어"), source: "cldr" },
        Record { tag3: "nld", tag1: Some("nl"), name: "Dutch", autonym: Some("Nederlands"), source: "cldr" },
        Record { tag3: "nob", tag1: Some("nb"), name: "Norwegian Bokmål", autonym: Some("norsk bokmål"), source: "cldr" },
        Record { tag3: "por", tag1: Some("pt"), name: "Portuguese", autonym: Some("português"), source: "cldr" },
        Record { tag3: "rus", tag1: Some("ru"), name: "Russian", autonym: Some("русский"), source: "cldr" },
        Record { tag3: "sma", tag1: None, name: "Southern Sami", autonym: Some("Åarjelsaemien"), source: "cldr" },
        Record { tag3: "sme", tag1: Some("se"), name: "Northern Sami", autonym: Some("davvisámegiella"), source: "cldr" },
        Record { tag3: "smj", tag1: None, name: "Lule Sami", autonym: Some("julevsámegiella"), source: "cldr" },
        Record { tag3: "spa", tag1: Some("es"), name: "Spanish", autonym: Some("español"), source: "cldr" },
        Record { tag3: "srp", tag1: Some("sr"), name: "Serbian", autonym: Some("српски"), source: "cldr" },
        Record { tag3: "swe", tag1: Some("sv"), name: "Swedish", autonym: Some("svenska"), source: "cldr" },
        Record { tag3: "tlh", tag1: None, name: "Klingon", autonym: None, source: "iso639-3" },
        Record { tag3: "zho", tag1: Some("zh"), name: "Chinese", autonym: Some("中文"), source: "cldr" },
    ]
}

/// The record that `key` names, as a three-letter tag or as an alias.
pub open spec fn lookup(key: Seq<char>) -> Option<Record> {
    match find(keys_of(autonyms()), key) {
        Some(i) => Some(autonyms()[i]),
        None => None,
    }
}

/// The registry keeps the key invariants.
pub proof fn lemma_autonyms_wf()
    ensures
        keys_wf(keys_of(autonyms())),
{
    reveal_strlit("ar");
    reveal_strlit("ara");
    reveal_strlit("ben");
    reveal_strlit("bn");
    reveal_strlit("chr");
    reveal_strlit("de");
    reveal_strlit("deu");
    reveal_strlit("en");
    reveal_strlit("eng");
    reveal_strlit("es");
    reveal_strlit("fil");
    reveal_strlit("fr");
    reveal_strlit("fra");
    reveal_strlit("hi");
    reveal_strlit("hin");
    reveal_strlit("ja");
    reveal_strlit("jpn");
    reveal_strlit("ko");
    reveal_strlit("kor");
    reveal_strlit("nb");
    reveal_strlit("nl");
    reveal_strlit("nld");
    reveal_strlit("nob");
    reveal_strlit("por");
    reveal_strlit("pt");
    reveal_strlit("ru");
    reveal_strlit("rus");
    reveal_strlit("se");
    reveal_strlit("sma");
    reveal_strlit("sme");
    reveal_strlit("smj");
    reveal_strlit("spa");
    reveal_strlit("sr");
    reveal_strlit("srp");
    reveal_strlit("sv");
    reveal_strlit("swe");
    reveal_strlit("tlh");
    reveal_strlit("zh");
    reveal_strlit("zho");
    let ks = keys_of(autonyms());
    assert(ks.len() == 22);
    assert forall|i: int| 0 <= i < ks.len() implies crate::text::is_lower_word(#[trigger] ks[i].0, 3) by {}
    assert forall|i: int, j: int| 0 <= i < j < ks.len() implies crate::text::seq_lt(#[trigger] ks[i].0, #[trigger] ks[j].0) by {
        reveal_with_fuel(crate::text::seq_lt, 4);
    }
    assert forall|i: int| 0 <= i < ks.len() && (#[trigger] ks[i]).1 is Some implies crate::text::is_lower_word(ks[i].1->0, 2) by {}
    assert forall|i: int, j: int| 0 <= i < j < ks.len() && (#[trigger] ks[i]).1 is Some && (#[trigger] ks[j]).1 is Some implies ks[i].1 != ks[j].1 by {
        assert(ks[i].1->0[0] != ks[j].1->0[0] || ks[i].1->0[1] != ks[j].1->0[1]);
    }
}

/// A record's three-letter tag finds it, and so does its two-letter alias
/// when it has one.
pub proof fn lemma_tag_and_alias_agree(i: int)
    requires
        0 <= i < autonyms().len(),
    ensures
        lookup(autonyms()[i].tag3@) == Some(autonyms()[i]),
        autonyms()[i].tag1 matches Some(t) ==> lookup(t@) == Some(autonyms()[i]),
{
    lemma_autonyms_wf();
    lemma_aliases_agree(keys_of(autonyms()), i);
}

/// A record that a lookup finds has a three-letter tag of lowercase letters.
pub proof fn lemma_lookup_tag3(key: Seq<char>)
    ensures
        lookup(key) matches Some(a) ==> crate::text::is_lower_word(a.tag3@, 3),
{
    lemma_autonyms_wf();
    if let Some(i) = find(keys_of(autonyms()), key) {
        assert(crate::text::is_lower_word(keys_of(autonyms())[i].0, 3));
    }
}

fn records() -> (t: Vec<Record>)
    ensures
        t@ == autonyms(),
{
    let t = vec![
        Record { tag3: "ara", tag1: Some("ar"), name: "Arabic", autonym: Some("العربية"), source: "cldr" },
        Record { tag3: "ben", tag1: Some("bn"), name: "Bengali", autonym: Some("বাংলা"), source: "cldr" },
        Record { tag3: "chr", tag1: None, name: "Cherokee", autonym: Some("ᏣᎳᎩ"), source: "cldr" },
        Record { tag3: "deu", tag1: Some("de"), name: "German", autonym: Some("Deutsch"), source: "cldr" },
        Record { tag3: "eng", tag1: Some("en"), name: "English", autonym: Some("English"), source: "cldr" },
        Record { tag3: "fil", tag1: None, name: "Filipino", autonym: Some("Filipino"), source: "cldr" },
        Record { tag3: "fra", tag1: Some("fr"), name: "French", autonym: Some("français"), source: "cldr" },
        Record { tag3: "hin", tag1: Some("hi"), name: "Hindi", autonym: Some("हिन्दी"), source: "cldr" },
        Record { tag3: "jpn", tag1: Some("ja"), name: "Japanese", autonym: Some("日本語"), source: "cldr" },
        Record { tag3: "kor", tag1: Some("ko"), name: "Korean", autonym: Some("한국어"), source: "cldr" },
        Record { tag3: "nld", tag1: Some("nl"), name: "Dutch", autonym: Some("Nederlands"), source: "cldr" },
        Record { tag3: "nob", tag1: Some("nb"), name: "Norwegian Bokmål", autonym: Some("norsk bokmål"), source: "cldr" },
        Record { tag3: "por", tag1: Some("pt"), name: "Portuguese", autonym: Some("português"), source: "cldr" },
        Record { tag3: "rus", tag1: Some("ru"), name: "Russian", autonym: Some("русский"), source: "cldr" },
        Record { tag3: "sma", tag1: None, name: "Southern Sami", autonym: Some("Åarjelsaemien"), source: "cldr" },
        Record { tag3: "sme", tag1: Some("se"), name: "Northern Sami", autonym: Some("davvisámegiella"), source: "cldr" },
        Record { tag3: "smj", tag1: None, name: "Lule Sami", autonym: Some("julevsámegiella"), source: "cldr" },
        Record { tag3: "spa", tag1: Some("es"), name: "Spanish", autonym: Some("español"), source: "cldr" },
        Record { tag3: "srp", tag1: Some("sr"), name: "Serbian", autonym: Some("српски"), source: "cldr" },
        Record { tag3: "swe", tag1: Some("sv"), name: "Swedish", autonym: Some("svenska"), source: "cldr" },
        Record { tag3: "tlh", tag1: None, name: "Klingon", autonym: None, source: "iso639-3" },
        Record { tag3: "zho", tag1: Some("zh"), name: "Chinese", autonym: Some("中文"), source: "cldr" },
    ];
    assert(t@ =~= autonyms());
    t
}

/// The record for a language, by ISO 639-3 tag or ISO 639-1 alias.
pub fn get(tag: &str) -> (r: Option<Record>)
    ensures
        r == lookup(tag@),
{
    let t = records();
    let mut i: usize = 0;
    while i < t.len()
        invariant
            t@ == autonyms(),
            0 <= i <= t.len(),
            forall|j: int| 0 <= j < i ==> !is_key(#[trigger] keys_of(t@)[j], tag@),
        decreases t.len() - i,
    {
        let r = t[i];
        let hit = str_eq(r.tag3, tag) || match r.tag1 {
            Some(x) => str_eq(x, tag),
            None => false,
        };
        if hit {
            proof {
                lemma_autonyms_wf();
                lemma_find_at(keys_of(t@), i as int, tag@);
            }
            return Some(r);
        }
        i = i + 1;
    }
    None
}

} // verus!
