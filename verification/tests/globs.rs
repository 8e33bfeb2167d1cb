use globset::GlobBuilder;
use tome::directory::is_well_formed_glob;

fn well_formed(glob: &str) -> bool {
    is_well_formed_glob(&glob.chars().collect())
}

fn builds(glob: &str) -> bool {
    match GlobBuilder::new(glob).literal_separator(true).case_insensitive(true).build() {
        Ok(built) => {
            built.compile_matcher();
            true
        }
        Err(_) => false,
    }
}

#[test]
fn well_formed_globs() {
    for glob in ["", "a", "*", "**", "a/**/b", "?", "[a]", "[!a]", "[^a]", "[]]", "[!]]", "[a-z]", "[a-]", "[-a]",
        "[a-c-e]", "[--0]", "[\\]", "[a\\]", "[[]", "[{]", "{}", "{a}", "{a,b}", "{a,{b,c}}", "{,}", "a,b",
        "\\a", "\\\\", "\\[", "\\{", "\\}", "]", "a]", "-", "!", "^", "[a-a]", "{[}]}", "[*]", "[?]"] {
        assert!(well_formed(glob), "{:?}", glob);
        assert!(builds(glob), "{:?}", glob);
    }
}

#[test]
fn malformed_globs() {
    for glob in ["[", "[]", "[!", "[!]", "[^]", "[a", "[a-", "[z-a]", "[z--]", "[b-a-c]", "{", "{a,b", "{a,{b,c}",
        "}", "a,b}", "{a,b}}", "\\", "a\\", "\\\\\\", "[a]\\", "{[}]", "[a-c-A]"] {
        assert!(!well_formed(glob), "{:?}", glob);
        assert!(!builds(glob), "{:?}", glob);
    }
}

#[test]
fn braces_stand_in_braces_to_a_depth() {
    let nested = |depth: usize| format!("{}a{}", "{".repeat(depth), "}".repeat(depth));
    assert!(well_formed(&nested(1)));
    assert!(well_formed(&nested(64)));
    assert!(builds(&nested(64)));
    assert!(!well_formed(&nested(65)));
    assert!(well_formed(&format!("{}{}", nested(64), nested(64))));
    assert!(!well_formed(&format!("{{{}}}", nested(64))));
}

#[test]
fn globs_are_judged_as_the_matcher_judges_them() {
    let alphabet: Vec<char> = "[]{}\\-!^,*?/.az \u{e9}[]{}\\-".chars().collect();
    let mut state: u64 = 0x9e37_79b9_7f4a_7c15;
    let mut next = |bound: usize| {
        state = state.wrapping_mul(6364136223846793005).wrapping_add(1442695040888963407);
        ((state >> 33) as usize) % bound
    };
    let mut accepted = 0;
    for _ in 0..20000 {
        let mut glob = String::new();
        for _ in 0..next(12) {
            glob.push(alphabet[next(alphabet.len())]);
        }
        let expected = GlobBuilder::new(&glob).build().is_ok();
        assert_eq!(well_formed(&glob), expected, "{:?}", glob);
        if expected {
            accepted += 1;
            assert!(builds(&glob), "{:?}", glob);
        }
    }
    assert!(accepted > 2000);
}
