use fvm::alias::{get_aliases_path, Alias, AliasFile};

fn s(x: &str) -> String {
    x.to_string()
}

fn pairs(v: &[Alias]) -> Vec<(String, String)> {
    v.iter().map(|a| (a.dir_name.clone(), a.name.clone())).collect()
}

#[test]
fn alias_new_keeps_fields() {
    let a = Alias::new(s("2.0.4-stable"), s("latest"));
    assert_eq!(a.dir_name, "2.0.4-stable");
    assert_eq!(a.name, "latest");
}

#[test]
fn alias_parse_splits_on_first_comma() {
    let a = Alias::parse(s("2.0.4-stable,latest"));
    assert_eq!(a.dir_name, "2.0.4-stable");
    assert_eq!(a.name, "latest");
}

#[test]
fn alias_parse_ignores_third_field() {
    let a = Alias::parse(s("a,b,c"));
    assert_eq!(a.dir_name, "a");
    assert_eq!(a.name, "b");
}

#[test]
fn alias_parse_empty_fields() {
    let a = Alias::parse(s(","));
    assert_eq!(a.dir_name, "");
    assert_eq!(a.name, "");
}

#[test]
fn alias_parse_non_ascii() {
    let a = Alias::parse(s("vérsion,ñame"));
    assert_eq!(a.dir_name, "vérsion");
    assert_eq!(a.name, "ñame");
}

#[test]
fn alias_to_line() {
    let a = Alias::new(s("2.2.0-beta"), s("b"));
    assert_eq!(a.to_line(), "2.2.0-beta,b");
}

#[test]
fn alias_line_roundtrip() {
    let a = Alias::new(s("1.22.6-stable"), s("old"));
    let b = Alias::parse(a.to_line());
    assert_eq!(b.dir_name, a.dir_name);
    assert_eq!(b.name, a.name);
}

#[test]
fn alias_file_parse_skips_empty_lines() {
    let f = AliasFile::parse_contents("a,b\n\nc,d\n").unwrap();
    assert_eq!(pairs(&f.get()), vec![(s("a"), s("b")), (s("c"), s("d"))]);
}

#[test]
fn alias_file_parse_empty() {
    let f = AliasFile::parse_contents("").unwrap();
    assert!(f.get().is_empty());
    assert_eq!(f.to_contents(), "");
}

#[test]
fn alias_file_parse_rejects_line_without_comma() {
    assert!(AliasFile::parse_contents("a,b\nbroken\n").is_none());
}

#[test]
fn alias_file_keeps_carriage_return() {
    let f = AliasFile::parse_contents("a,b\r\n").unwrap();
    assert_eq!(pairs(&f.get()), vec![(s("a"), s("b\r"))]);
}

#[test]
fn alias_file_contents_joined_by_newline() {
    let mut f = AliasFile::parse_contents("").unwrap();
    f.push(Alias::new(s("v1"), s("one")));
    f.push(Alias::new(s("v2"), s("two")));
    assert_eq!(f.to_contents(), "v1,one\nv2,two");
}

#[test]
fn alias_file_roundtrip() {
    let mut f = AliasFile::parse_contents("").unwrap();
    f.push(Alias::new(s("2.0.4-stable"), s("latest")));
    f.push(Alias::new(s("2.2.0-beta"), s("")));
    let text = f.to_contents();
    let g = AliasFile::parse_contents(&text).unwrap();
    assert_eq!(pairs(&g.get()), pairs(&f.get()));
}

#[test]
fn alias_file_push_appends() {
    let mut f = AliasFile::parse_contents("a,b").unwrap();
    f.push(Alias::new(s("c"), s("d")));
    assert_eq!(pairs(&f.get()), vec![(s("a"), s("b")), (s("c"), s("d"))]);
}

#[test]
fn alias_file_remove_by_alias() {
    let mut f = AliasFile::parse_contents("a,x\nb,y\nc,x").unwrap();
    f.remove_by_alias(s("x"));
    assert_eq!(pairs(&f.get()), vec![(s("b"), s("y"))]);
}

#[test]
fn alias_file_remove_by_alias_absent_name() {
    let mut f = AliasFile::parse_contents("a,x\nb,y").unwrap();
    f.remove_by_alias(s("z"));
    assert_eq!(pairs(&f.get()), vec![(s("a"), s("x")), (s("b"), s("y"))]);
}

#[test]
fn alias_file_remove_by_version() {
    let mut f = AliasFile::parse_contents("a,x\nb,y\na,z").unwrap();
    f.remove_by_version(&s("a"));
    assert_eq!(pairs(&f.get()), vec![(s("b"), s("y"))]);
}

#[test]
fn aliases_path_appends_file_name() {
    let root = vec![s("/"), s("home"), s("me"), s(".fvm")];
    assert_eq!(
        get_aliases_path(&root),
        vec![s("/"), s("home"), s("me"), s(".fvm"), s("aliases")]
    );
}
