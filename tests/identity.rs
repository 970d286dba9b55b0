use bskycord::identity::{parse_actor_ref, parse_did};

#[test]
fn did_accepted() {
    assert_eq!(parse_did("did:plc:z72i7hdynmk6r22z27h6tvur"), Ok("did:plc:z72i7hdynmk6r22z27h6tvur".to_string()));
}

#[test]
fn did_refused() {
    assert_eq!(parse_did("alice.bsky.social"), Err("alice.bsky.social is not a valid DID".to_string()));
    assert_eq!(parse_did("did:plc:"), Err("did:plc: is not a valid DID".to_string()));
}

#[test]
fn actor_ref_accepts_handle_and_did() {
    assert_eq!(parse_actor_ref("alice.bsky.social"), Ok("alice.bsky.social".to_string()));
    assert_eq!(parse_actor_ref("did:web:example.com"), Ok("did:web:example.com".to_string()));
}

#[test]
fn actor_ref_refused() {
    assert_eq!(parse_actor_ref("not a handle"), Err("not a handle is not a valid DID or handle".to_string()));
}

fn did_ok(s: &str) -> bool {
    parse_did(s).is_ok()
}

fn actor_ok(s: &str) -> bool {
    parse_actor_ref(s).is_ok()
}

#[test]
fn did_syntax_edges() {
    assert!(did_ok("did:web:a"));
    assert!(did_ok("did:plc:a:b%20c.d_e-f"));
    assert!(!did_ok("did:plc:abc:"));
    assert!(!did_ok("did:plc:abc%"));
    assert!(!did_ok("did:PLC:abc"));
    assert!(!did_ok("did::abc"));
    assert!(!did_ok("did:plc"));
    assert!(!did_ok("did:plc:ab c"));
    let long_body = "a".repeat(2048 - 8);
    assert!(did_ok(&format!("did:plc:{long_body}")));
    assert!(!did_ok(&format!("did:plc:{long_body}a")));
}

#[test]
fn handle_syntax_edges() {
    assert!(actor_ok("a.b"));
    assert!(actor_ok("x-1.example.com"));
    assert!(!actor_ok("example"));
    assert!(!actor_ok("-a.example"));
    assert!(!actor_ok("a-.example"));
    assert!(!actor_ok("a..example"));
    assert!(!actor_ok(".a.example"));
    assert!(!actor_ok("a.example."));
    assert!(!actor_ok("a.1com"));
    assert!(actor_ok("1a.com"));
    let label63 = "a".repeat(63);
    let label64 = "a".repeat(64);
    assert!(actor_ok(&format!("{label63}.com")));
    assert!(!actor_ok(&format!("{label64}.com")));
    let long = format!("{}.{}.{}.{}", label63, label63, label63, "a".repeat(61));
    assert_eq!(long.len(), 253);
    assert!(actor_ok(&long));
    assert!(!actor_ok(&format!("{long}a")));
}
