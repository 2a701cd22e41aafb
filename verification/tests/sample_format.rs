use rstrf::sample_format::SampleFormat;

#[test]
fn from_extension_recognises_every_format_case_insensitively() {
    assert_eq!(SampleFormat::from_extension("cs8"), Some(SampleFormat::CS8));
    assert_eq!(SampleFormat::from_extension("CS16"), Some(SampleFormat::CS16));
    assert_eq!(SampleFormat::from_extension("Cs32"), Some(SampleFormat::CS32));
    assert_eq!(SampleFormat::from_extension("cS64"), Some(SampleFormat::CS64));
    assert_eq!(SampleFormat::from_extension("CF32"), Some(SampleFormat::CF32));
    assert_eq!(SampleFormat::from_extension("cf64"), Some(SampleFormat::CF64));
}

#[test]
fn from_extension_rejects_other_extensions() {
    assert_eq!(SampleFormat::from_extension(""), None);
    assert_eq!(SampleFormat::from_extension("bin"), None);
    assert_eq!(SampleFormat::from_extension("cs"), None);
    assert_eq!(SampleFormat::from_extension("cs88"), None);
    assert_eq!(SampleFormat::from_extension(".cs8"), None);
    assert_eq!(SampleFormat::from_extension("cf16"), None);
    assert_eq!(SampleFormat::from_extension("ćs8"), None);
}

#[test]
fn sample_size_counts_both_components() {
    assert_eq!(SampleFormat::CS8.sample_size(), 2);
    assert_eq!(SampleFormat::CS16.sample_size(), 4);
    assert_eq!(SampleFormat::CS32.sample_size(), 8);
    assert_eq!(SampleFormat::CF32.sample_size(), 8);
    assert_eq!(SampleFormat::CS64.sample_size(), 16);
    assert_eq!(SampleFormat::CF64.sample_size(), 16);
}

#[test]
fn names_and_variants() {
    let names: Vec<&str> = SampleFormat::variants().iter().map(|f| f.name()).collect();
    assert_eq!(names, vec!["CS8", "CS16", "CS32", "CS64", "CF32", "CF64"]);
    for f in SampleFormat::variants() {
        assert_eq!(SampleFormat::from_extension(&f.name().to_lowercase()), Some(f));
    }
}
