use iso639::table::{compile_autonyms, compile_lcids, compile_scripts, split_chars, CompileError};

#[test]
fn split_keeps_empty_pieces() {
    let s: Vec<char> = "a\t\tbc\t".chars().collect();
    let parts: Vec<String> = split_chars(&s, '\t').iter().map(|p| p.iter().collect()).collect();
    assert_eq!(parts, vec!["a", "", "bc", ""]);
    let empty: Vec<char> = Vec::new();
    assert_eq!(split_chars(&empty, '\t').len(), 1);
}

#[test]
fn autonym_table_compiles_in_line_order() {
    let tsv = "tag3\ttag1\tname\tautonym\tsource\n\
               eng\ten\tEnglish\tEnglish\tcldr\n\
               \n\
               fil\t \tFilipino\t\tcldr\n\
               deu\tde\tGerman\tDeutsch\tcldr\n";
    let t = compile_autonyms(tsv).unwrap();
    assert_eq!(t.len(), 3);
    assert_eq!(t[0].tag3, "eng");
    assert_eq!(t[0].tag1.as_deref(), Some("en"));
    assert_eq!(t[0].autonym.as_deref(), Some("English"));
    assert_eq!(t[1].tag3, "fil");
    assert_eq!(t[1].tag1, None);
    assert_eq!(t[1].autonym, None);
    assert_eq!(t[2].name, "German");
    assert_eq!(t[2].source, "cldr");
}

#[test]
fn empty_tables_compile() {
    assert_eq!(compile_autonyms("").unwrap().len(), 0);
    assert_eq!(compile_autonyms("tag3\ttag1\tname\tautonym\tsource\n").unwrap().len(), 0);
    assert_eq!(compile_lcids("tag3\ttag1\tscript\tregion\tlcid").unwrap().len(), 0);
}

#[test]
fn bad_rows_are_refused_with_their_line() {
    let head = "tag3\ttag1\tname\tautonym\tsource\n";
    let upper = format!("{}ENG\ten\tEnglish\tEnglish\tcldr\n", head);
    assert_eq!(compile_autonyms(&upper).unwrap_err(), CompileError::BadRow(2));
    let short = format!("{}eng\ten\tEnglish\tEnglish\tcldr\nfra\tfr\tFrench\n", head);
    assert_eq!(compile_autonyms(&short).unwrap_err(), CompileError::BadRow(3));
    let blank_tag = format!("{}\ten\tEnglish\tEnglish\tcldr\n", head);
    assert_eq!(compile_autonyms(&blank_tag).unwrap_err(), CompileError::BadRow(2));
    let long_alias = format!("{}eng\teng\tEnglish\tEnglish\tcldr\n", head);
    assert_eq!(compile_autonyms(&long_alias).unwrap_err(), CompileError::BadRow(2));
}

#[test]
fn duplicate_keys_are_refused() {
    let head = "tag3\ttag1\tname\tautonym\tsource\n";
    let dup_tag = format!("{}eng\ten\tEnglish\t\tcldr\neng\t\tEnglish\t\tcldr\n", head);
    assert_eq!(compile_autonyms(&dup_tag).unwrap_err(), CompileError::DuplicateKey(3));
    let dup_alias = format!("{}eng\ten\tEnglish\t\tcldr\nenm\ten\tMiddle English\t\tcldr\n", head);
    assert_eq!(compile_autonyms(&dup_alias).unwrap_err(), CompileError::DuplicateKey(3));
}

#[test]
fn script_table_checks_the_script_code() {
    let tsv = "tag3\ttag1\tscript\tname\tsource\njpn\tja\tJpan\tJapanese\tcldr\n";
    let t = compile_scripts(tsv).unwrap();
    assert_eq!(t[0].script, "Jpan");
    assert_eq!(t[0].tag1.as_deref(), Some("ja"));
    let bad = "tag3\ttag1\tscript\tname\tsource\njpn\tja\tJp4n\tJapanese\tcldr\n";
    assert_eq!(compile_scripts(bad).unwrap_err(), CompileError::BadRow(2));
}

#[test]
fn lcid_table_comes_out_sorted() {
    let tsv = "tag3\ttag1\tscript\tregion\tlcid\n\
               srp\tsr\tLatn\tRS\t9242\n\
               eng\ten\t\tUS\t1033\n\
               srp\tsr\tCyrl\tRS\t10266\n\
               eng\ten\t\t\t9\n\
               spa\tes\t\t419\t22538\n";
    let t = compile_lcids(tsv).unwrap();
    let ids: Vec<u32> = t.iter().map(|r| r.lcid).collect();
    assert_eq!(ids, vec![9, 1033, 22538, 10266, 9242]);
    assert_eq!(t[0].region, None);
    assert_eq!(t[1].region.as_deref(), Some("US"));
    assert_eq!(t[3].script.as_deref(), Some("Cyrl"));
}

#[test]
fn lcid_table_refusals() {
    let head = "tag3\ttag1\tscript\tregion\tlcid\n";
    let dup = format!("{}eng\ten\t\tUS\t1033\neng\t\t\tUS\t1\n", head);
    assert_eq!(compile_lcids(&dup).unwrap_err(), CompileError::DuplicateKey(3));
    let lower_region = format!("{}eng\ten\t\tus\t1033\n", head);
    assert_eq!(compile_lcids(&lower_region).unwrap_err(), CompileError::BadRow(2));
    let too_big = format!("{}eng\ten\t\tUS\t4294967296\n", head);
    assert_eq!(compile_lcids(&too_big).unwrap_err(), CompileError::BadRow(2));
    let not_number = format!("{}eng\ten\t\tUS\t10x\n", head);
    assert_eq!(compile_lcids(&not_number).unwrap_err(), CompileError::BadRow(2));
    let bad_script = format!("{}eng\ten\tLat\tUS\t1\n", head);
    assert_eq!(compile_lcids(&bad_script).unwrap_err(), CompileError::BadRow(2));
    let largest = format!("{}eng\ten\t\tUS\t4294967295\n", head);
    assert_eq!(compile_lcids(&largest).unwrap()[0].lcid, u32::MAX);
}
