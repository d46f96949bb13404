use deap::config::NotaryConfig;

#[test]
fn builder_default_max_transcript_size() {
    let config = NotaryConfig::builder().build();
    assert_eq!(config.max_transcript_size(), 2 << 14);
}

#[test]
fn builder_sets_max_transcript_size() {
    let config = NotaryConfig::builder().max_transcript_size(1024).build();
    assert_eq!(config.max_transcript_size(), 1024);
}
