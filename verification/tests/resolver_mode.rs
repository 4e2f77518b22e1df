use resolver_mode::bip32::UnhardenedIndex;
use resolver_mode::{ParseError, ResolverModeIter, ResolverModeType};

fn collect(mut it: ResolverModeIter) -> Vec<u32> {
    let mut out = Vec::new();
    while let Some(v) = it.next() {
        out.push(v);
    }
    out
}

fn index(v: u32) -> UnhardenedIndex {
    UnhardenedIndex::from_index(v).unwrap()
}

#[test]
fn parse_while() {
    let m = ResolverModeType::parse("while").unwrap();
    assert_eq!(m, ResolverModeType::While);
    assert_eq!(m.count(), 1);
    assert_eq!(m.range(), 0..1u32);
    assert!(m.is_while());
    assert!(!m.is_random());
}

#[test]
fn parse_first_bare() {
    let m = ResolverModeType::parse("first").unwrap();
    assert_eq!(m, ResolverModeType::First(UnhardenedIndex::one()));
    assert_eq!(m.count(), 1);
    assert!(!m.is_while());
    assert!(!m.is_random());
}

#[test]
fn parse_first_with_count() {
    let m = ResolverModeType::parse("first5").unwrap();
    assert_eq!(m, ResolverModeType::First(index(5)));
    assert_eq!(m.count(), 5);
    assert_eq!(m.range(), 0..5u32);
    assert_eq!(collect(m.into_iter()), vec![0, 1, 2, 3, 4]);
}

#[test]
fn parse_random_bare() {
    let m = ResolverModeType::parse("random").unwrap();
    assert_eq!(m, ResolverModeType::Random(UnhardenedIndex::one()));
    assert_eq!(m.count(), 1);
    assert!(m.is_random());
}

#[test]
fn parse_random_with_count() {
    let m = ResolverModeType::parse("random3").unwrap();
    assert_eq!(m, ResolverModeType::Random(index(3)));
    assert!(m.is_random());
    assert_eq!(m.count(), 3);
    assert_eq!(collect(m.into_iter()).len(), 3);
}

#[test]
fn hardened_count_rejected() {
    // 2147483648 == 2^31: the first hardened index.
    assert_eq!(
        ResolverModeType::parse("first2147483648"),
        Err(ParseError::HardenedIndex)
    );
    assert_eq!(
        ResolverModeType::parse("random2147483648"),
        Err(ParseError::HardenedIndex)
    );
    assert!(UnhardenedIndex::from_index(2_147_483_648).is_none());
}

#[test]
fn largest_unhardened_count_accepted() {
    let m = ResolverModeType::parse("first2147483647").unwrap();
    assert_eq!(m, ResolverModeType::First(index(2_147_483_647)));
    assert_eq!(m.count(), 2_147_483_647);
    assert_eq!(m.range(), 0..2_147_483_647u32);
}

#[test]
fn malformed_integer_rejected() {
    assert_eq!(
        ResolverModeType::parse("firstabc"),
        Err(ParseError::InvalidInteger)
    );
    assert_eq!(
        ResolverModeType::parse("first+5"),
        Err(ParseError::InvalidInteger)
    );
    assert_eq!(
        ResolverModeType::parse("first 5"),
        Err(ParseError::InvalidInteger)
    );
    assert_eq!(
        ResolverModeType::parse("random12x"),
        Err(ParseError::InvalidInteger)
    );
    // 4294967296 == 2^32: overflows the 32-bit integer width.
    assert_eq!(
        ResolverModeType::parse("first4294967296"),
        Err(ParseError::InvalidInteger)
    );
    assert_eq!(
        ResolverModeType::parse("random99999999999999999999"),
        Err(ParseError::InvalidInteger)
    );
}

#[test]
fn unrecognized_directive_rejected() {
    assert_eq!(
        ResolverModeType::parse("banana"),
        Err(ParseError::UnrecognizedTypeName("banana".to_string()))
    );
    assert_eq!(
        ResolverModeType::parse(""),
        Err(ParseError::UnrecognizedTypeName(String::new()))
    );
    assert_eq!(
        ResolverModeType::parse("While"),
        Err(ParseError::UnrecognizedTypeName("While".to_string()))
    );
    assert_eq!(
        ResolverModeType::parse("while5"),
        Err(ParseError::UnrecognizedTypeName("while5".to_string()))
    );
    assert_eq!(
        ResolverModeType::parse("firs"),
        Err(ParseError::UnrecognizedTypeName("firs".to_string()))
    );
}

#[test]
fn from_str_matches_parse() {
    let m: ResolverModeType = "random7".parse().unwrap();
    assert_eq!(m, ResolverModeType::Random(index(7)));
    let e = "banana".parse::<ResolverModeType>();
    assert_eq!(e, Err(ParseError::UnrecognizedTypeName("banana".to_string())));
}

#[test]
fn while_iterates_once() {
    let m = ResolverModeType::parse("while").unwrap();
    assert_eq!(collect(m.into_iter()), vec![0]);
}

#[test]
fn first_sequences_are_deterministic() {
    let m = ResolverModeType::First(index(7));
    let a = collect(m.into_iter());
    let b = collect(m.into_iter());
    assert_eq!(a, b);
    assert_eq!(a, (0..7).collect::<Vec<u32>>());
}

#[test]
fn random_sequences_have_exact_length() {
    let m = ResolverModeType::Random(index(5));
    let a = collect(m.into_iter());
    let b = collect(m.into_iter());
    assert_eq!(a.len(), 5);
    assert_eq!(b.len(), 5);
}

#[test]
fn exhaustion_is_idempotent() {
    let m = ResolverModeType::First(index(2));
    let mut it = m.into_iter();
    assert_eq!(it.next(), Some(0));
    assert_eq!(it.next(), Some(1));
    assert_eq!(it.next(), None);
    assert_eq!(it.next(), None);
    assert_eq!(it.next(), None);

    let mut it = ResolverModeType::Random(index(1)).into_iter();
    assert!(it.next().is_some());
    assert_eq!(it.next(), None);
    assert_eq!(it.next(), None);
}

#[test]
fn zero_count_is_immediately_exhausted() {
    let first0 = ResolverModeType::parse("first0").unwrap();
    assert_eq!(first0.count(), 0);
    assert_eq!(first0.range(), 0..0u32);
    let mut it = first0.into_iter();
    assert_eq!(it.next(), None);

    let random0 = ResolverModeType::parse("random0").unwrap();
    assert_eq!(random0.count(), 0);
    let mut it = random0.into_iter();
    assert_eq!(it.next(), None);
}

#[test]
fn index_accessors() {
    let i = index(42);
    assert_eq!(i.index(), 42);
    assert_eq!(UnhardenedIndex::one().index(), 1);
    assert_eq!(UnhardenedIndex::from_index(0).unwrap().index(), 0);
    assert_eq!(
        UnhardenedIndex::from_index(2_147_483_647).unwrap().index(),
        2_147_483_647
    );
}
