use wavethumb::error::ThumbnailError;
use wavethumb::wave::SampleDomain;
use wavethumb::wave::SampleFormat;
use wavethumb::wave::Wave;

#[test]
fn sixteen_bit_domain_has_the_bounds_of_i16() {
    let domain = SampleDomain::sixteen_bit();
    assert_eq!(domain.min, -32768);
    assert_eq!(domain.zero, 0);
    assert_eq!(domain.max, 32767);
    assert!(domain.signed());
}

#[test]
fn unsigned_domains_are_not_signed() {
    assert!(!SampleDomain { min: 0, zero: 0, max: 255 }.signed());
    assert!(!SampleDomain { min: 0, zero: 128, max: 255 }.signed());
    assert!(!SampleDomain { min: -10, zero: 1, max: 10 }.signed());
    assert!(!SampleDomain { min: -10, zero: 0, max: 0 }.signed());
    assert!(SampleDomain { min: -1, zero: 0, max: 1 }.signed());
}

#[test]
fn only_the_sixteen_bit_format_is_drawn() {
    assert_eq!(SampleFormat::Sixteen.domain(), Ok(SampleDomain::sixteen_bit()));
    assert_eq!(SampleFormat::Eight.domain(), Err(ThumbnailError::UnsupportedFormat));
    assert_eq!(SampleFormat::TwentyFour.domain(), Err(ThumbnailError::UnsupportedFormat));
    assert_eq!(SampleFormat::ThirtyTwoFloat.domain(), Err(ThumbnailError::UnsupportedFormat));
    assert_eq!(SampleFormat::Empty.domain(), Err(ThumbnailError::UnsupportedFormat));
}

#[test]
fn frame_count_divides_samples_by_channels() {
    let data: Vec<i16> = vec![1, 2, 3, 4, 5, 6];
    let mono = Wave::new(&data, 1, SampleDomain::sixteen_bit()).unwrap();
    assert_eq!(mono.frame_count(), 6);
    assert_eq!(mono.sample_count(), 6);
    assert_eq!(mono.channel_count(), 1);
    let stereo = Wave::new(&data, 2, SampleDomain::sixteen_bit()).unwrap();
    assert_eq!(stereo.frame_count(), 3);
    assert_eq!(stereo.sample_count(), 6);
    let three = Wave::new(&data, 3, SampleDomain::sixteen_bit()).unwrap();
    assert_eq!(three.frame_count(), 2);
    assert_eq!(three.sample_count(), 6);
    assert_eq!(three.domain(), SampleDomain::sixteen_bit());
}

#[test]
fn an_empty_wave_has_no_frames() {
    let data: Vec<i16> = Vec::new();
    let wave = Wave::new(&data, 2, SampleDomain::sixteen_bit()).unwrap();
    assert_eq!(wave.frame_count(), 0);
    assert_eq!(wave.sample_count(), 0);
}

#[test]
fn samples_that_do_not_fill_whole_frames_are_corrupt() {
    let data: Vec<i16> = vec![1, 2, 3];
    let wave = Wave::new(&data, 2, SampleDomain::sixteen_bit());
    assert_eq!(wave.err(), Some(ThumbnailError::CorruptInput));
}

#[test]
fn a_wave_without_channels_is_corrupt() {
    let data: Vec<i16> = vec![1, 2, 3, 4];
    let wave = Wave::new(&data, 0, SampleDomain::sixteen_bit());
    assert_eq!(wave.err(), Some(ThumbnailError::CorruptInput));
    let empty: Vec<i16> = Vec::new();
    assert_eq!(
        Wave::new(&empty, 0, SampleDomain::sixteen_bit()).err(),
        Some(ThumbnailError::CorruptInput)
    );
}

#[test]
fn an_unsigned_domain_is_an_unsupported_format() {
    let data: Vec<i16> = vec![1, 2, 3, 4];
    let unsigned = SampleDomain { min: 0, zero: 0, max: 255 };
    assert_eq!(Wave::new(&data, 1, unsigned).err(), Some(ThumbnailError::UnsupportedFormat));
}

#[test]
fn the_format_is_judged_before_the_frames() {
    let data: Vec<i16> = vec![1, 2, 3];
    let unsigned = SampleDomain { min: 0, zero: 128, max: 255 };
    assert_eq!(Wave::new(&data, 2, unsigned).err(), Some(ThumbnailError::UnsupportedFormat));
}

#[test]
fn envelope_is_the_least_and_greatest_of_the_window() {
    let data: Vec<i16> = vec![5, -3, 12, 7, -20, 0];
    let wave = Wave::new(&data, 1, SampleDomain::sixteen_bit()).unwrap();
    assert_eq!(wave.envelope(0, 6), (-20, 12));
    assert_eq!(wave.envelope(0, 3), (-3, 12));
    assert_eq!(wave.envelope(3, 6), (-20, 7));
    assert_eq!(wave.envelope(2, 3), (12, 12));
    assert_eq!(wave.envelope(5, 6), (0, 0));
}

#[test]
fn envelope_does_not_tell_channels_apart() {
    let data: Vec<i16> = vec![100, -100, 200, -200];
    let wave = Wave::new(&data, 2, SampleDomain::sixteen_bit()).unwrap();
    assert_eq!(wave.envelope(0, 2), (-100, 100));
    assert_eq!(wave.envelope(2, 4), (-200, 200));
}

#[test]
fn envelope_reaches_the_ends_of_the_domain() {
    let data: Vec<i16> = vec![i16::MIN, i16::MAX];
    let wave = Wave::new(&data, 1, SampleDomain::sixteen_bit()).unwrap();
    assert_eq!(wave.envelope(0, 2), (i16::MIN, i16::MAX));
    assert_eq!(wave.envelope(0, 1), (i16::MIN, i16::MIN));
    assert_eq!(wave.envelope(1, 2), (i16::MAX, i16::MAX));
}
