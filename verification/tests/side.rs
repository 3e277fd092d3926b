use terrain_generator::side::Side;

#[test]
fn side_index_roundtrip() {
    let all = [Side::L, Side::B, Side::R, Side::F, Side::U, Side::D];
    for (i, side) in all.iter().enumerate() {
        assert_eq!(side.to_index(), i);
        assert_eq!(Side::from_index(i), *side);
        assert_eq!(Side::try_from_index(i), Some(*side));
    }
    assert_eq!(Side::try_from_index(6), None);
}

#[test]
fn side_letters() {
    assert_eq!(Side::L.to_string(), "l");
    assert_eq!(Side::B.to_string(), "b");
    assert_eq!(Side::R.to_string(), "r");
    assert_eq!(Side::F.to_string(), "f");
    assert_eq!(Side::U.to_string(), "u");
    assert_eq!(Side::D.to_string(), "d");
    assert_eq!(Side::default(), Side::L);
}
