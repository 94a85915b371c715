use path_no_alloc::components_of;
use path_no_alloc::join_in_buff;
use path_no_alloc::native_join_all;
use path_no_alloc::paths_equivalent;

fn segs_of(paths: &[&str]) -> Vec<Vec<u8>> {
    paths.iter().map(|p| p.as_bytes().to_vec()).collect()
}

/// Joins with the default 128-byte scratch buffer; also returns whether
/// the fallback buffer was touched.
fn join_observed(paths: &[&str]) -> (Vec<u8>, bool) {
    let segs = segs_of(paths);
    let mut scratch = vec![0u8; 128];
    let mut fallback: Option<Vec<u8>> = None;
    let r = join_in_buff(&mut scratch, &mut fallback, &segs).to_vec();
    (r, fallback.is_some())
}

fn join(paths: &[&str]) -> Vec<u8> {
    join_observed(paths).0
}

#[test]
fn test_two_plain_segments() {
    assert_eq!(join(&["hello", "world"]), b"hello/world".to_vec());
}

#[test]
fn test_absolute_segment_resets() {
    let paths = ["hello//", "/world/", "some/other/path"];
    let native = native_join_all(&segs_of(&paths));
    assert_eq!(native, b"/world/some/other/path".to_vec());
    let ours = join(&paths);
    assert!(paths_equivalent(&ours, &native));
}

#[test]
fn test_trailing_empty_segment() {
    assert_eq!(join(&["a", ""]), b"a".to_vec());
}

#[test]
fn test_long_segments_use_fallback() {
    let a = "a".repeat(70);
    let b = "b".repeat(70);
    assert!(a.len() + b.len() > 128);
    let paths = [a.as_str(), b.as_str()];
    let (ours, fallback_used) = join_observed(&paths);
    assert!(fallback_used);
    let native = native_join_all(&segs_of(&paths));
    assert_eq!(ours, native);
    let mut expected = a.clone().into_bytes();
    expected.push(b'/');
    expected.extend_from_slice(b.as_bytes());
    assert_eq!(ours, expected);
}

#[test]
fn test_boundary_at_capacity() {
    // Two segments cost len+1 each, so ["x"*63, "y"*62] totals exactly
    // 127, one less than the 128-byte scratch capacity.
    let x63 = "x".repeat(63);
    let y62 = "y".repeat(62);
    let y63 = "y".repeat(63);
    let y64 = "y".repeat(64);

    let (r, fallback_used) = join_observed(&[&x63, &y62]);
    assert!(!fallback_used);
    assert_eq!(r.len(), 126);

    // Total exactly equal to the capacity: still the fast path.
    let (r, fallback_used) = join_observed(&[&x63, &y63]);
    assert!(!fallback_used);
    assert_eq!(r.len(), 127);

    // One more byte and the fallback buffer takes over.
    let (r, fallback_used) = join_observed(&[&x63, &y64]);
    assert!(fallback_used);
    assert_eq!(r.len(), 128);
}

#[test]
fn test_empty_segments_transparent() {
    let with_empty = join(&["a", "", "b"]);
    let without = join(&["a", "b"]);
    assert_eq!(with_empty, without);
    assert_eq!(join(&["", "a", "b"]), without);
    assert_eq!(join(&["a", "b", ""]), without);
}

#[test]
fn test_all_segments_empty() {
    let segs = segs_of(&["", "", ""]);
    let mut scratch = vec![0u8; 128];
    let mut fallback: Option<Vec<u8>> = None;
    let r = join_in_buff(&mut scratch, &mut fallback, &segs).to_vec();
    assert_eq!(r, b"".to_vec());
    assert!(fallback.is_none());
    assert!(scratch.iter().all(|&b| b == 0));
}

#[test]
fn test_no_trailing_separator() {
    assert_eq!(join(&["a", "b"]).last(), Some(&b'b'));
    // Only when the last retained segment itself ends with a separator
    // does the result end with one.
    assert_eq!(join(&["a", "b/"]).last(), Some(&b'/'));
    assert_eq!(join(&["a/"]), b"a/".to_vec());
}

#[test]
fn test_matches_native_join() {
    let cases: [&[&str]; 6] = [
        &["hello/", "world"],
        &["a//b", "c/"],
        &["", "/r", "", "s"],
        &["/", "/", "x"],
        &["a", "/b", "/c", "d", "e"],
        &["alpha/beta/", "//gamma", "delta//"],
    ];
    for paths in cases {
        let ours = join(paths);
        let native = native_join_all(&segs_of(paths));
        assert!(
            paths_equivalent(&ours, &native),
            "join of {paths:?} gave {ours:?}, native {native:?}"
        );
    }
}

#[test]
fn test_no_segments() {
    assert_eq!(join(&[]), b"".to_vec());
}

#[test]
fn test_single_absolute_segment() {
    assert_eq!(join(&["/abs"]), b"/abs".to_vec());
}

#[test]
fn test_fallback_buffer_reused() {
    let long_a = "a".repeat(200);
    let long_b = "b".repeat(200);
    let mut scratch = vec![0u8; 128];
    let mut fallback: Option<Vec<u8>> = None;

    let r = join_in_buff(&mut scratch, &mut fallback, &segs_of(&[&long_a, "x"])).to_vec();
    assert!(fallback.is_some());
    let mut expected = long_a.clone().into_bytes();
    expected.extend_from_slice(b"/x");
    assert_eq!(r, expected);

    // A second join at the same call site reuses the buffer; prior
    // contents must not leak into the new result.
    let r = join_in_buff(&mut scratch, &mut fallback, &segs_of(&[&long_b])).to_vec();
    assert_eq!(r, long_b.clone().into_bytes());

    // A short join afterwards goes back to the scratch buffer and leaves
    // the fallback as it was.
    let r = join_in_buff(&mut scratch, &mut fallback, &segs_of(&["p", "q"])).to_vec();
    assert_eq!(r, b"p/q".to_vec());
    assert_eq!(fallback, Some(long_b.into_bytes()));
}

#[test]
fn test_caller_chosen_capacity() {
    // The scratch capacity is whatever the caller supplies.
    let mut scratch = vec![0u8; 4];
    let mut fallback: Option<Vec<u8>> = None;
    let r = join_in_buff(&mut scratch, &mut fallback, &segs_of(&["ab", "cd"])).to_vec();
    assert_eq!(r, b"ab/cd".to_vec());
    assert!(fallback.is_some());

    let mut scratch = vec![0u8; 0];
    let mut fallback: Option<Vec<u8>> = None;
    let r = join_in_buff(&mut scratch, &mut fallback, &segs_of(&["a"])).to_vec();
    assert_eq!(r, b"a".to_vec());
    assert!(fallback.is_some());
}

#[test]
fn test_components_and_equivalence() {
    let comps = components_of(b"a//b/");
    assert_eq!(comps, vec![b"a".to_vec(), b"b".to_vec()]);
    assert_eq!(components_of(b""), Vec::<Vec<u8>>::new());
    assert_eq!(components_of(b"///"), Vec::<Vec<u8>>::new());

    assert!(paths_equivalent(b"a//b/", b"a/b"));
    assert!(paths_equivalent(b"/x/y", b"/x//y/"));
    assert!(!paths_equivalent(b"a/b", b"/a/b"));
    assert!(!paths_equivalent(b"a/b", b"a/c"));
    assert!(!paths_equivalent(b"a/b", b"a"));
}
