use imghost::fragments::{join, split};

fn sample(len: usize) -> Vec<u8> {
    (0..len).map(|i| (i % 251) as u8).collect()
}

fn sizes(fragments: &[Vec<u8>]) -> Vec<usize> {
    fragments.iter().map(|f| f.len()).collect()
}

#[test]
fn forty_bytes_at_sixteen_give_three_fragments() {
    let blob = sample(40);
    let fragments = split(&blob, 16);
    assert_eq!(sizes(&fragments), vec![16, 16, 8]);
    assert_eq!(fragments[0], blob[0..16].to_vec());
    assert_eq!(fragments[1], blob[16..32].to_vec());
    assert_eq!(fragments[2], blob[32..40].to_vec());
}

#[test]
fn exact_multiple_has_no_short_fragment() {
    let blob = sample(48);
    assert_eq!(sizes(&split(&blob, 16)), vec![16, 16, 16]);
}

#[test]
fn blob_shorter_than_a_fragment_is_one_fragment() {
    let blob = sample(5);
    let fragments = split(&blob, 16);
    assert_eq!(fragments, vec![blob]);
}

#[test]
fn chunk_size_one_gives_one_byte_per_fragment() {
    let blob = sample(4);
    assert_eq!(split(&blob, 1), vec![vec![0u8], vec![1u8], vec![2u8], vec![3u8]]);
}

#[test]
fn empty_blob_has_no_fragments() {
    let none: Vec<Vec<u8>> = Vec::new();
    assert_eq!(split(&[], 16), none);
    assert_eq!(join(&none), Vec::<u8>::new());
}

#[test]
fn fragment_count_is_the_quotient_rounded_up() {
    for len in 0..200usize {
        for chunk_size in 1..40usize {
            let fragments = split(&sample(len), chunk_size);
            assert_eq!(fragments.len(), (len + chunk_size - 1) / chunk_size);
            for (i, f) in fragments.iter().enumerate() {
                if i + 1 < fragments.len() {
                    assert_eq!(f.len(), chunk_size);
                } else {
                    assert_eq!(f.len(), len - i * chunk_size);
                    assert!(1 <= f.len() && f.len() <= chunk_size);
                }
            }
        }
    }
}

#[test]
fn join_gives_the_blob_back() {
    for len in 1..70usize {
        for chunk_size in 1..20usize {
            let blob = sample(len);
            assert_eq!(join(&split(&blob, chunk_size)), blob);
        }
    }
}

#[test]
fn join_keeps_the_order_given() {
    let fragments = vec![vec![3u8, 4], vec![], vec![1u8], vec![9u8, 9, 9]];
    assert_eq!(join(&fragments), vec![3u8, 4, 1, 9, 9, 9]);
}

#[test]
fn large_blob_survives_a_round_trip() {
    let blob = sample(32_000_001);
    let fragments = split(&blob, 16_000_000);
    assert_eq!(sizes(&fragments), vec![16_000_000, 16_000_000, 1]);
    assert_eq!(join(&fragments), blob);
}
