use filesync::platform::nfd_normalize;

#[test]
fn nfd_normalize_roundtrips_ascii() {
    let input = "hello_world.txt";
    assert_eq!(nfd_normalize(input), input);
}
