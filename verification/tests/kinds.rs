use limlang::kind::{SyntaxKind, KIND_COUNT};

const ALL: [SyntaxKind; 19] = [
    SyntaxKind::Whitespace,
    SyntaxKind::FnKw,
    SyntaxKind::LetKw,
    SyntaxKind::Ident,
    SyntaxKind::Number,
    SyntaxKind::Plus,
    SyntaxKind::Minus,
    SyntaxKind::Star,
    SyntaxKind::Slash,
    SyntaxKind::Equals,
    SyntaxKind::LParen,
    SyntaxKind::RParen,
    SyntaxKind::LBrace,
    SyntaxKind::RBrace,
    SyntaxKind::Error,
    SyntaxKind::Root,
    SyntaxKind::BinaryExpr,
    SyntaxKind::PrefixExpr,
    SyntaxKind::ParenExpr,
];

#[test]
fn kind_to_raw_and_back() {
    for kind in ALL {
        assert_eq!(SyntaxKind::from_raw(kind.to_raw()), kind);
    }
}

#[test]
fn raw_tags_count_up_from_zero() {
    assert_eq!(KIND_COUNT as usize, ALL.len());
    for (place, kind) in ALL.into_iter().enumerate() {
        assert_eq!(kind.to_raw() as usize, place);
    }
}

#[test]
fn raw_to_kind_and_back() {
    for raw in 0..KIND_COUNT {
        assert_eq!(SyntaxKind::from_raw(raw).to_raw(), raw);
    }
}

#[test]
fn unused_tags_read_as_error() {
    assert_eq!(SyntaxKind::from_raw(KIND_COUNT), SyntaxKind::Error);
    assert_eq!(SyntaxKind::from_raw(1000), SyntaxKind::Error);
    assert_eq!(SyntaxKind::from_raw(u16::MAX), SyntaxKind::Error);
}

#[test]
fn kind_names_are_the_variant_names() {
    for kind in ALL {
        assert_eq!(kind.name(), format!("{:?}", kind));
    }
    assert_eq!(SyntaxKind::BinaryExpr.name(), "BinaryExpr");
}
