use vault_client::error::Error;
use vault_client::parser::{arg1, backend, parse, secret_path};
use vault_client::path::{Arg, Backend};

#[test]
fn backend_parse() {
    assert_eq!(backend::<Backend>("vault:").unwrap(), (":", Backend::Vault));
}

#[test]
fn parse_args() {
    assert_eq!(
        arg1("test,role").unwrap(),
        ("", vec![Arg::Arg("test"), Arg::Arg("role")])
    );
}

#[test]
fn parse_kwargs() {
    assert_eq!(
        arg1("role,cn=test").unwrap(),
        ("", vec![Arg::Arg("role"), Arg::KwArg(("cn", "test"))])
    )
}

#[test]
fn secret_path_parse() {
    assert_eq!(
        secret_path::<Backend>("vault:arg1,arg2:comp1/comp2/comp3").unwrap(),
        (
            "",
            (
                Backend::Vault,
                vec![Arg::Arg("arg1"), Arg::Arg("arg2")],
                "comp1/comp2/comp3",
                None
            )
        )
    );
}

#[test]
fn secret_path_parse_colon() {
    assert_eq!(
        secret_path::<Backend>("vault:arg1,arg2:comp1/comp2:comp3").unwrap(),
        (
            "",
            (
                Backend::Vault,
                vec![Arg::Arg("arg1"), Arg::Arg("arg2")],
                "comp1/comp2:comp3",
                None
            )
        )
    );
}

#[test]
fn secret_path_with_anchor() {
    assert_eq!(
        secret_path::<Backend>("vault:arg1,arg2:comp1/comp2:comp3#anchor").unwrap(),
        (
            "",
            (
                Backend::Vault,
                vec![Arg::Arg("arg1"), Arg::Arg("arg2")],
                "comp1/comp2:comp3",
                Some("anchor")
            )
        )
    );
}

#[test]
fn secret_path_kw_parse() {
    assert_eq!(
        secret_path::<Backend>("vault:arg1,arg2,cn=test:comp1/comp2/comp3#anchor").unwrap(),
        (
            "",
            (
                Backend::Vault,
                vec![
                    Arg::Arg("arg1"),
                    Arg::Arg("arg2"),
                    Arg::KwArg(("cn", "test"))
                ],
                "comp1/comp2/comp3",
                Some("anchor")
            )
        )
    );
}

#[test]
fn parser_secret_path_from_str() {
    assert_eq!(
        parse::<Backend>("vault:arg1,arg2,cn=test:comp1/comp2/comp3#anchor")
            .unwrap()
            .to_string(),
        "vault:arg1,arg2,cn=test:comp1/comp2/comp3#anchor"
    )
}

#[test]
fn grammar_error_kinds() {
    assert_eq!(parse::<Backend>("").unwrap_err(), Error::NoBackend);
    assert_eq!(parse::<Backend>(":a:b").unwrap_err(), Error::NoBackend);
    assert_eq!(parse::<Backend>("vault").unwrap_err(), Error::NoArgs("vault".to_owned()));
    assert_eq!(parse::<Backend>("vault1").unwrap_err(), Error::NoArgs("vault1".to_owned()));
    assert_eq!(parse::<Backend>("foo").unwrap_err(), Error::NoArgs("foo".to_owned()));
    assert_eq!(parse::<Backend>("foo:a:b").unwrap_err(), Error::UnknowBackend("foo".to_owned()));
    assert_eq!(parse::<Backend>("vault1:a:b").unwrap_err(), Error::UnknowBackend("vault1".to_owned()));
    assert_eq!(parse::<Backend>("vault:a").unwrap_err(), Error::NoPath(String::new()));
    assert_eq!(parse::<Backend>("vault:a,,b:p").unwrap_err(), Error::NoPath(",,b:p".to_owned()));
    assert_eq!(parse::<Backend>("vault:a=:p").unwrap_err(), Error::NoPath("=:p".to_owned()));
    assert_eq!(parse::<Backend>("vault::p").unwrap_err(), Error::NoPath(":p".to_owned()));
    assert_eq!(parse::<Backend>("vault:a:").unwrap_err(), Error::NoPath(String::new()));
}

#[test]
fn grammar_keeps_keyword_order_and_duplicates() {
    let p = parse::<Backend>("const:k=1,x,k=2:p").unwrap();
    assert_eq!(p.backend, Backend::Const);
    assert_eq!(p.args, vec!["x"]);
    assert_eq!(p.kwargs, Some(vec![("k", "1"), ("k", "2")]));
    assert_eq!(p.path, "p");
    assert_eq!(p.anchor, None);
}

#[test]
fn grammar_splits_at_last_hash() {
    let p = parse::<Backend>("vault:a:x#y#z").unwrap();
    assert_eq!(p.path, "x#y");
    assert_eq!(p.anchor, Some("z"));
    assert_eq!(p.path_anchor, "x#y#z");
}

#[test]
fn arg_to_string() {
    assert_eq!(Arg::Arg("a").to_string(), "a");
    assert_eq!(Arg::KwArg(("k", "v")).to_string(), "k=v");
}
