use hyper_ex::jar::{contains_name, copy_cookies, merge_cookies};
use hyper_ex::Cookie;

fn cookie(name: &str, value: &str, domain: Option<&str>, path: Option<&str>) -> Cookie {
    Cookie {
        name: name.to_string(),
        value: value.to_string(),
        domain: domain.map(|d| d.to_string()),
        path: path.map(|p| p.to_string()),
    }
}

#[test]
fn nothing_issued_leaves_the_jar() {
    let jar = vec![
        cookie("a", "1", Some("a.example"), Some("/")),
        cookie("b", "2", None, None),
        cookie("a", "3", Some("b.example"), None),
    ];
    let merged = merge_cookies(&jar, &vec![], "c.example");
    assert_eq!(merged, jar);
}

#[test]
fn nothing_issued_into_an_empty_jar() {
    let merged = merge_cookies(&vec![], &vec![], "c.example");
    assert_eq!(merged, Vec::<Cookie>::new());
}

#[test]
fn issued_cookie_replaces_the_one_of_its_name() {
    let jar = vec![
        cookie("session", "Y", Some("b.example"), Some("/old")),
        cookie("lang", "en", Some("b.example"), None),
    ];
    let issued = vec![cookie("session", "X", Some("a.example"), Some("/"))];
    let merged = merge_cookies(&jar, &issued, "a.example");
    assert_eq!(
        merged,
        vec![
            cookie("session", "X", Some("a.example"), Some("/")),
            cookie("lang", "en", Some("b.example"), None),
        ]
    );
    let named: Vec<&Cookie> = merged.iter().filter(|c| c.name == "session").collect();
    assert_eq!(named.len(), 1);
    assert_eq!(*named[0], issued[0]);
}

#[test]
fn issued_cookie_drops_every_older_one_of_its_name() {
    let jar = vec![
        cookie("id", "1", Some("a.example"), None),
        cookie("keep", "k", Some("a.example"), None),
        cookie("id", "2", Some("b.example"), None),
    ];
    let issued = vec![cookie("id", "3", Some("c.example"), None)];
    let merged = merge_cookies(&jar, &issued, "c.example");
    assert_eq!(
        merged,
        vec![
            cookie("id", "3", Some("c.example"), None),
            cookie("keep", "k", Some("a.example"), None),
        ]
    );
}

#[test]
fn issued_cookies_come_first_in_their_order() {
    let jar = vec![
        cookie("x", "1", Some("a.example"), None),
        cookie("y", "2", Some("a.example"), None),
    ];
    let issued = vec![
        cookie("p", "3", Some("a.example"), None),
        cookie("q", "4", Some("a.example"), None),
    ];
    let merged = merge_cookies(&jar, &issued, "a.example");
    let names: Vec<&str> = merged.iter().map(|c| c.name.as_str()).collect();
    assert_eq!(names, vec!["p", "q", "x", "y"]);
}

#[test]
fn issued_cookie_without_domain_gets_the_request_domain() {
    let issued = vec![
        cookie("a", "1", None, Some("/")),
        cookie("b", "2", Some("other.example"), None),
    ];
    let merged = merge_cookies(&vec![], &issued, "a.example");
    assert_eq!(
        merged,
        vec![
            cookie("a", "1", Some("a.example"), Some("/")),
            cookie("b", "2", Some("other.example"), None),
        ]
    );
}

#[test]
fn kept_cookie_without_domain_stays_without() {
    let jar = vec![cookie("old", "1", None, None)];
    let issued = vec![cookie("new", "2", None, None)];
    let merged = merge_cookies(&jar, &issued, "a.example");
    assert_eq!(
        merged,
        vec![
            cookie("new", "2", Some("a.example"), None),
            cookie("old", "1", None, None),
        ]
    );
}

#[test]
fn same_name_issued_twice_enters_twice() {
    let jar = vec![cookie("id", "0", Some("a.example"), None)];
    let issued = vec![
        cookie("id", "1", Some("a.example"), None),
        cookie("id", "2", Some("a.example"), None),
    ];
    let merged = merge_cookies(&jar, &issued, "a.example");
    assert_eq!(merged, issued);
}

#[test]
fn merging_twice_changes_nothing() {
    let jar = vec![
        cookie("a", "1", Some("a.example"), None),
        cookie("b", "2", Some("a.example"), None),
        cookie("c", "3", None, None),
    ];
    let issued = vec![
        cookie("b", "20", None, Some("/")),
        cookie("d", "4", Some("d.example"), None),
    ];
    let once = merge_cookies(&jar, &issued, "a.example");
    let twice = merge_cookies(&once, &issued, "a.example");
    assert_eq!(twice, once);
    assert_eq!(
        once,
        vec![
            cookie("b", "20", Some("a.example"), Some("/")),
            cookie("d", "4", Some("d.example"), None),
            cookie("a", "1", Some("a.example"), None),
            cookie("c", "3", None, None),
        ]
    );
}

#[test]
fn names_are_compared_exactly() {
    let jar = vec![cookie("ID", "upper", Some("a.example"), None)];
    let issued = vec![cookie("id", "lower", Some("a.example"), None)];
    let merged = merge_cookies(&jar, &issued, "a.example");
    assert_eq!(merged.len(), 2);
    assert!(contains_name(&merged, &"ID".to_string()));
    assert!(contains_name(&merged, &"id".to_string()));
    assert!(!contains_name(&merged, &"Id".to_string()));
}

#[test]
fn defaulted_fills_only_a_missing_domain() {
    let bare = cookie("a", "1", None, Some("/p"));
    assert_eq!(bare.defaulted("x.example"), cookie("a", "1", Some("x.example"), Some("/p")));
    let full = cookie("a", "1", Some("y.example"), None);
    assert_eq!(full.defaulted("x.example"), full);
}

#[test]
fn copies_are_equal() {
    let jar = vec![cookie("a", "1", Some("a.example"), Some("/")), cookie("b", "", None, None)];
    assert_eq!(copy_cookies(&jar), jar);
    assert_eq!(jar[0].clone(), jar[0]);
}
