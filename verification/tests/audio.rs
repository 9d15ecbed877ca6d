use tpk_whisper::audio::{downmix_i16, downmix_u16};

#[test]
fn stereo_average_rounds_toward_zero() {
    assert_eq!(downmix_i16(&[1, 3, -1, -2, 5], 2), vec![2, -1, 2]);
}

#[test]
fn extremes_fit() {
    assert_eq!(downmix_i16(&[i16::MIN, i16::MIN, i16::MAX, i16::MAX], 2), vec![i16::MIN, i16::MAX]);
    assert_eq!(downmix_i16(&[i16::MIN; 3], 3), vec![i16::MIN]);
    assert_eq!(downmix_i16(&[], 4), Vec::<i16>::new());
}

#[test]
fn mono_is_unchanged() {
    assert_eq!(downmix_i16(&[7, -7, 0], 1), vec![7, -7, 0]);
}

#[test]
fn same_sample_on_every_channel() {
    assert_eq!(downmix_i16(&[-5, -5, -5, 9, 9, 9], 3), vec![-5, 9]);
}

#[test]
fn unsigned_samples_are_centered() {
    assert_eq!(downmix_u16(&[32768, 32768, 0, 0, 65535, 65535], 2), vec![0, -32768, 32767]);
    assert_eq!(downmix_u16(&[32769, 32770], 2), vec![1]);
}

#[test]
fn like_chunked_average() {
    let data: Vec<i16> = (0..37).map(|i| ((i * 7919) % 65536 - 32768) as i16).collect();
    for ch in 1u16..6 {
        let expected: Vec<i16> = data
            .chunks(ch as usize)
            .map(|f| (f.iter().map(|&s| s as i32).sum::<i32>() / ch as i32) as i16)
            .collect();
        assert_eq!(downmix_i16(&data, ch), expected);
    }
}
