use vault_client::error::Error;
use vault_client::parser;
use vault_client::parser_simple::{parse, SecretPathIterator};
use vault_client::path::{splitargs, Arg, Backend, SecretPath};

#[test]
fn parse_anchor() {
    let path = "vault:role,POST,common_name=example.com:pki/issue/example.com#/data";
    let secret_path = SecretPath::try_from(path).unwrap();
    assert_eq!(
        secret_path,
        SecretPath {
            backend: Backend::Vault,
            args: vec!["role", "POST"],
            kwargs: Some(vec![("common_name", "example.com")]),
            path_anchor: "pki/issue/example.com#/data",
            path: "pki/issue/example.com",
            anchor: Some("/data")
        }
    );
}

#[test]
fn parse_const_str() {
    let path = "const:str:https://localhost:8200#";
    let secret_path = SecretPath::try_from(path).unwrap();
    assert_eq!(
        secret_path,
        SecretPath {
            backend: Backend::Const,
            args: vec!["str"],
            kwargs: None,
            path_anchor: "https://localhost:8200#",
            path: "https://localhost:8200",
            anchor: Some("")
        }
    );
}

#[test]
fn parse_const_json() {
    let path = r#"const:js:{"key": "val"}"#;
    let secret_path = SecretPath::try_from(path).unwrap();
    assert_eq!(
        secret_path,
        SecretPath {
            backend: Backend::Const,
            args: vec!["js"],
            kwargs: None,
            path_anchor: r#"{"key": "val"}"#,
            path: r#"{"key": "val"}"#,
            anchor: None
        }
    );
}

#[test]
fn parser_simple_secret_path_from_str() {
    assert_eq!(
        SecretPath::<Backend>::try_from("vault:arg1,arg2,cn=test:comp1/comp2/comp3#anchor")
            .unwrap()
            .to_string(),
        "vault:arg1,arg2,cn=test:comp1/comp2/comp3#anchor"
    )
}

#[test]
fn round_trip_example() {
    let s = "vault:arg1,arg2,cn=test:comp1/comp2/comp3#anchor";
    let p = SecretPath::<Backend>::try_from(s).unwrap();
    assert_eq!(p.backend, Backend::Vault);
    assert_eq!(p.args, vec!["arg1", "arg2"]);
    assert_eq!(p.kwargs, Some(vec![("cn", "test")]));
    assert_eq!(p.path, "comp1/comp2/comp3");
    assert_eq!(p.anchor, Some("anchor"));
    assert_eq!(p.to_string(), s);
}

#[test]
fn second_colon_ends_the_arguments() {
    let p = SecretPath::<Backend>::try_from("vault:arg1,arg2:comp1/comp2:comp3").unwrap();
    assert_eq!(p.args, vec!["arg1", "arg2"]);
    assert_eq!(p.path_anchor, "comp1/comp2:comp3");
    assert_eq!(p.path, "comp1/comp2:comp3");
    assert_eq!(p.anchor, None);
}

#[test]
fn empty_and_colonless_inputs() {
    assert_eq!(parse::<Backend>("").unwrap_err(), Error::NoBackend);
    assert_eq!(parse::<Backend>("vault").unwrap_err(), Error::NoArgs("vault".to_owned()));
    assert_eq!(parse::<Backend>("vault1").unwrap_err(), Error::NoArgs("vault1".to_owned()));
    assert_eq!(parse::<Backend>("1 x").unwrap_err(), Error::NoArgs("1 x".to_owned()));
    assert_eq!(parser::parse::<Backend>("").unwrap_err(), Error::NoBackend);
    assert_eq!(parser::parse::<Backend>("const").unwrap_err(), Error::NoArgs("const".to_owned()));
    assert_eq!(parser::parse::<Backend>("vault1").unwrap_err(), Error::NoArgs("vault1".to_owned()));
}

#[test]
fn scanner_error_kinds() {
    assert_eq!(parse::<Backend>("foo:a:b").unwrap_err(), Error::UnknowBackend("foo".to_owned()));
    assert_eq!(parse::<Backend>("vault:a").unwrap_err(), Error::NoPath("a".to_owned()));
    assert_eq!(parse::<Backend>("vault:a,,b:p").unwrap_err(), Error::NoPath("a,,b".to_owned()));
    assert_eq!(parse::<Backend>("vault:a=b=c:p").unwrap_err(), Error::NoPath("a=b=c".to_owned()));
    assert_eq!(parse::<Backend>("vault:a:").unwrap_err(), Error::NoPath(String::new()));
}

fn kind(r: &Result<String, Error>) -> String {
    match r {
        Ok(s) => format!("ok {}", s),
        Err(Error::NoBackend) => "NoBackend".to_owned(),
        Err(Error::UnknowBackend(_)) => "UnknowBackend".to_owned(),
        Err(Error::NoArgs(_)) => "NoArgs".to_owned(),
        Err(Error::NoPath(_)) => "NoPath".to_owned(),
        Err(e) => format!("{:?}", e),
    }
}

#[test]
fn strategies_agree_on_corpus() {
    let corpus = [
        "",
        "vault",
        "vault1",
        "foo",
        ":",
        "::",
        "vault:",
        "vault::",
        "vault::p",
        "vault:a",
        "vault:a:",
        "vault:a:p",
        "vault:a,b:p#x",
        "vault:a,,b:p",
        "vault:a,:p",
        "vault:,a:p",
        "vault:k=v:p",
        "vault:k=:p",
        "vault:=v:p",
        "vault:k=v=w:p",
        "vault:k==v:p",
        "vault:x,k=v,y:p:q#r#s",
        "const:str:https://localhost:8200#",
        "const:js:{\"key\": \"val\"}",
        "foo:a:b",
        "Vault:a:b",
        "vault1:a:b",
        "v ault:a:b",
        "vault:a b,c d=e f:p q",
        "vault:a:#",
        "vault:a:#x",
    ];
    for s in corpus.iter() {
        let g = parser::parse::<Backend>(s).map(|p| format!("{:?}", p));
        let c = parse::<Backend>(s).map(|p| format!("{:?}", p));
        assert_eq!(kind(&g), kind(&c), "on {:?}", s);
    }
}

#[test]
fn iterator_yields_three_parts() {
    let mut it = SecretPathIterator::new("vault:a,b:p:q");
    assert_eq!(it.next(), Some("vault"));
    assert_eq!(it.next(), Some("a,b"));
    assert_eq!(it.next(), Some("p:q"));
    assert_eq!(it.next(), None);
}

#[test]
fn iterator_steps() {
    let mut it = SecretPathIterator::new("ab:cd");
    assert_eq!(it.yield_colon(), Some("ab"));
    assert_eq!(it.remainder, "cd");
    assert_eq!(it.yield_colon(), None);
    assert_eq!(it.yield_remainder(), Some("cd"));
    assert_eq!(it.yield_remainder(), None);
}

#[test]
fn splitargs_partitions_in_order() {
    let (a, k) = splitargs(vec![
        Arg::KwArg(("k", "1")),
        Arg::Arg("x"),
        Arg::KwArg(("k", "2")),
        Arg::Arg("y"),
    ]);
    assert_eq!(a, vec!["x", "y"]);
    assert_eq!(k, Some(vec![("k", "1"), ("k", "2")]));
    let (a, k) = splitargs(vec![Arg::Arg("x")]);
    assert_eq!(a, vec!["x"]);
    assert_eq!(k, None);
}
