use tinydnsproxy::error::{Error, ErrorKind};

#[test]
fn constructors_set_their_kind() {
    assert_eq!(Error::no_dot_providers().kind, ErrorKind::NoDotProviders);
    assert_eq!(Error::sync_error().kind, ErrorKind::SyncError);
    assert_eq!(Error::line_is_blank().kind, ErrorKind::LineIsBlank);
    assert_eq!(Error::dns_parsing().kind, ErrorKind::DnsParsing);
    assert_eq!(Error::dns_too_many_questions().kind, ErrorKind::DnsTooManyQuestions);
    assert_eq!(Error::text_decoding().kind, ErrorKind::TextDecoding);
    assert_eq!(Error::new(ErrorKind::Io).kind, ErrorKind::Io);
}

#[test]
fn messages_name_the_failure() {
    assert_eq!(
        Error::no_dot_providers().message(),
        "TOML file error: At least one DNS-over-TLS provider must be defined"
    );
    assert_eq!(Error::dns_too_many_questions().message(), "Too many questions in DNS request");
    assert_eq!(Error::dns_parsing().message(), "Couldn't parse DNS message");
    assert_eq!(Error::line_is_blank().message(), "Block list line has no meaningful content on it");
    assert_eq!(Error::sync_error().message(), "Unable to update block list");
    assert_eq!(Error::new(ErrorKind::Io).message(), "IO error");
}
