use std::path::Path;
use std::path::PathBuf;

use rand::distributions::Uniform;
use rand::prelude::Distribution;

use path_no_alloc::join_in_buff;
use path_no_alloc::native_join_all;
use path_no_alloc::paths_equivalent;

/// Joins `paths` as a call site would: a 128-byte scratch buffer and a
/// lazily created fallback buffer, both scoped to the call.
fn join(paths: &[&str]) -> Vec<u8> {
    let segs: Vec<Vec<u8>> = paths.iter().map(|p| p.as_bytes().to_vec()).collect();
    let mut scratch = vec![0u8; 128];
    let mut fallback: Option<Vec<u8>> = None;
    join_in_buff(&mut scratch, &mut fallback, &segs).to_vec()
}

/// Asserts that joining `paths` agrees with the platform's sequential
/// join, both the library's own and the standard library's.
fn check_join(paths: &[&str]) {
    let segs: Vec<Vec<u8>> = paths.iter().map(|p| p.as_bytes().to_vec()).collect();
    let ours = join(paths);
    let native = native_join_all(&segs);
    assert!(
        paths_equivalent(&ours, &native),
        "join of {paths:?} gave {ours:?}, native {native:?}"
    );
    let mut std_result = PathBuf::new();
    for p in paths {
        std_result.push(p);
    }
    assert!(
        paths_equivalent(&ours, std_result.to_str().unwrap().as_bytes()),
        "join of {paths:?} gave {ours:?}, std {std_result:?}"
    );
}

/// Checks that every combination of 3 paths produces the expected result.
fn check_paths(p1: &str, p2: &str, p3: &str) {
    let ps = [p1, p2, p3];
    for a in ps {
        check_join(&[a]);
    }
    for a in ps {
        for b in ps {
            check_join(&[a, b]);
        }
    }
    for a in ps {
        for b in ps {
            for c in ps {
                check_join(&[a, b, c]);
            }
        }
    }
}

#[test]
fn test_with_paths() {
    let p1 = "hello";
    let p2 = "world";
    let p3 = "some/other/path";
    check_paths(p1, p2, p3);
}

#[test]
fn test_with_paths_2() {
    let p1 = "hello/";
    let p2 = "world";
    let p3 = "some/other/path";
    check_paths(p1, p2, p3);
}

#[test]
fn test_with_paths_empty_1() {
    let p1 = "hello";
    let p2 = "";
    let p3 = "some/other/path";
    check_paths(p1, p2, p3);
}

#[test]
fn test_with_paths_abs_1() {
    let p1 = "hello//";
    let p2 = "/world/";
    let p3 = "some/other/path//";
    check_paths(p1, p2, p3);
}

#[test]
fn test_with_paths_abs_2() {
    let p1 = "/hello//";
    let p2 = "/world/";
    let p3 = "some/other/path//";
    check_paths(p1, p2, p3);
}

#[test]
fn test_with_paths_abs_3() {
    let p1 = "//hello//";
    let p2 = "/world/";
    let p3 = "some/other/path//";
    check_paths(p1, p2, p3);
}

#[test]
fn test_with_paths_abs_4() {
    let p1 = "hello//";
    let p2 = "/world/";
    let p3 = "some/other/path";
    let p4 = "/actual_root"; // p4 should be selected as the actual root path

    let result = Path::new(p1).join(p2).join(p3).join(p4);
    let path = join(&[p1, p2, p3, p4]);
    assert_eq!(
        Path::new(std::str::from_utf8(&path).unwrap()),
        result.as_path()
    );
}

#[test]
fn test_with_paths_overflow() {
    let p1 = "Call me Ishmael. Some years ago—never mind how long precisely—having little or no money in my purse";
    let p2 = "and nothing particular to interest me on shore";
    let p3 = "/some/root/path/for/good/measure/with/lots/of/slashes/precisely—having little or no money in my purse";

    assert!(p1.len() + p2.len() > 128);
    assert!(p1.len() + p3.len() > 128);
    assert!(p2.len() + p3.len() > 128);

    check_paths(p1, p2, p3)
}

#[test]
fn test_fuzz() {
    let mut rng = rand::thread_rng();
    const SAMPLE_SIZE: usize = 100000;
    const SAMPLES: usize = 100_000;

    let options = b"abcdef/";

    let length_dist = Uniform::from(0..24);
    let opt_dist = Uniform::from(0..options.len());

    let mut paths: Vec<String> = vec![];
    paths.reserve(SAMPLE_SIZE);

    for _ in 0..SAMPLE_SIZE {
        let len = length_dist.sample(&mut rng);

        let s: String = opt_dist
            .sample_iter(&mut rng)
            .take(len)
            .map(|i| options[i] as char)
            .collect();
        paths.push(s);
    }

    let path_dist = Uniform::from(0..paths.len()).map(|i| paths[i].as_str());

    let mut n127 = 0;
    let mut result = PathBuf::new();
    for _ in 0..SAMPLES {
        let p0 = path_dist.sample(&mut rng);
        let p1 = path_dist.sample(&mut rng);
        let p2 = path_dist.sample(&mut rng);
        let p3 = path_dist.sample(&mut rng);
        let p4 = path_dist.sample(&mut rng);
        let p5 = path_dist.sample(&mut rng);
        let p6 = path_dist.sample(&mut rng);
        let p7 = path_dist.sample(&mut rng);
        let p8 = path_dist.sample(&mut rng);
        let p9 = path_dist.sample(&mut rng);

        result.clear();
        result.push(p0);
        result.push(p1);
        result.push(p2);

        let path = join(&[p0, p1, p2]);
        assert_eq!(
            Path::new(std::str::from_utf8(&path).unwrap()),
            result.as_path()
        );

        result.push(p3);
        result.push(p4);
        result.push(p5);

        let path = join(&[p0, p1, p2, p3, p4, p5]);
        assert_eq!(
            Path::new(std::str::from_utf8(&path).unwrap()),
            result.as_path()
        );

        result.push(p6);
        result.push(p7);
        result.push(p8);
        result.push(p9);

        let len = result.to_str().unwrap().len();
        if len >= 127 {
            n127 += 1;
        }
        let path = join(&[p0, p1, p2, p3, p4, p5, p6, p7, p8, p9]);
        assert_eq!(
            Path::new(std::str::from_utf8(&path).unwrap()),
            result.as_path()
        );
    }
    let p = n127 as f64 / SAMPLES as f64;
    println!("Portion >= 127: {p}")
}
