use limlang::parser::Parser;

fn next(state: &mut u64) -> u64 {
    *state = state.wrapping_mul(6364136223846793005).wrapping_add(1442695040888963407);
    *state >> 33
}

#[test]
fn every_text_of_a_small_alphabet_parses_without_loss() {
    let pieces = ["1", "23", "a", "fn", "let", "+", "-", "*", "/", "(", ")", "{", "}", "=", " ", "\n", "$", "é", "\u{1F980}"];
    let mut state = 7u64;
    for _ in 0..3000 {
        let len = next(&mut state) % 12;
        let mut input = String::new();
        for _ in 0..len {
            input.push_str(pieces[(next(&mut state) % pieces.len() as u64) as usize]);
        }
        let parse = Parser::new(&input).parse();
        assert_eq!(parse.text(), input);
        assert_eq!(parse.green_node().to_string(), input);
        let text = parse.debug_tree();
        assert!(text.starts_with(&format!("Root@0..{}", input.len())));
        assert!(!text.ends_with('\n'));
    }
}

#[test]
fn deep_nesting_parses() {
    let depth = 2000;
    let input = format!("{}1{}", "(".repeat(depth), ")".repeat(depth));
    let parse = Parser::new(&input).parse();
    assert_eq!(parse.text(), input);
    assert_eq!(parse.debug_tree().lines().count(), 3 * depth + 2);
}

#[test]
fn long_chain_parses() {
    let terms = 2000;
    let input = format!("1{}", "+1".repeat(terms));
    let parse = Parser::new(&input).parse();
    assert_eq!(parse.text(), input);
    assert_eq!(parse.debug_tree().lines().count(), 3 * terms + 2);
}
