//! Behaviour of the TEI header model and the document shell.

use chutoro::{
    AnnotationSystem, AnnotationSystemId, BodyContentError, DocumentTitle, DocumentTitleError,
    EncodingDesc, FileDesc, HeaderValidationError, IdentifierValidationError, ProfileDesc,
    RevisionChange, RevisionDesc, SpeakerValidationError, TeiDocument, TeiError, TeiHeader,
};

#[test]
fn annotation_system_requires_identifier() {
    let Err(error) = AnnotationSystem::new("   ", "cliché detection") else {
        panic!("empty identifier accepted");
    };

    assert_eq!(
        error,
        HeaderValidationError::EmptyField {
            field: "annotation system",
        }
    );
}

#[test]
fn finds_registered_annotation_system() {
    let mut encoding = EncodingDesc::new();
    let system = AnnotationSystem::new("timestamps", "Word timing")
        .unwrap_or_else(|error| panic!("valid annotation system should construct: {error:?}"));
    let identifier = system.identifier().clone();
    encoding.add_annotation_system(system);

    assert!(encoding.find(&identifier).is_some());
    assert!(encoding
        .find(&AnnotationSystemId::new("other").unwrap_or_else(|error| panic!("valid id: {error:?}")))
        .is_none());
    assert!(encoding.find_str(identifier.as_str()).is_some());
    assert!(encoding.find_str("missing").is_none());
}

#[test]
fn blanks_are_removed_from_descriptions() {
    let system = AnnotationSystem::new("tok", "   ")
        .unwrap_or_else(|error| panic!("identifier should be valid: {error:?}"));

    assert!(system.description().is_none());
}

#[test]
fn file_desc_carries_optional_metadata() {
    let file_desc = FileDesc::from_title_str("Wolf 359")
        .expect("valid title")
        .with_series("Kakos Industries")
        .with_synopsis("Drama podcast");

    assert_eq!(file_desc.series(), Some("Kakos Industries"));
    assert_eq!(file_desc.synopsis(), Some("Drama podcast"));
}

#[test]
fn attaches_optional_sections() {
    let title = DocumentTitle::new("Title").expect("valid title");
    let header = TeiHeader::new(FileDesc::new(title))
        .with_profile_desc(ProfileDesc::new())
        .with_encoding_desc(EncodingDesc::new())
        .with_revision_desc(RevisionDesc::new());

    assert!(header.profile_desc().is_some());
    assert!(header.encoding_desc().is_some());
    assert!(header.revision_desc().is_some());
}

#[test]
fn profile_desc_tracks_speakers_and_languages() {
    let mut profile = ProfileDesc::new();
    profile.add_speaker("Keisha").expect("speaker recorded");
    profile.add_language("en-GB").expect("language recorded");

    let speakers: Vec<&str> = profile.speakers().iter().map(|s| s.as_str()).collect();
    assert_eq!(speakers, ["Keisha"]);
    assert_eq!(profile.len_speakers(), 1);
    let languages: Vec<&str> = profile.languages().iter().map(|l| l.as_str()).collect();
    assert_eq!(languages, ["en-GB"]);
    assert_eq!(profile.len_languages(), 1);
}

#[test]
fn revision_change_requires_description() {
    let Err(error) = RevisionChange::new("   ", "") else {
        panic!("empty description accepted");
    };

    assert_eq!(
        error,
        HeaderValidationError::EmptyField {
            field: "revision note",
        }
    );
}

#[test]
fn revision_log_keeps_changes_in_order() {
    let mut log = RevisionDesc::new();
    assert!(log.is_empty());
    let first = RevisionChange::new("drafted", "ed").expect("valid change");
    let second = RevisionChange::new("reviewed", "   ").expect("valid change");
    log.add_change(first);
    log.add_change(second);

    assert!(!log.is_empty());
    assert_eq!(log.changes().len(), 2);
    assert_eq!(log.change_at(0).description(), "drafted");
    assert_eq!(log.change_at(0).resp().map(|p| p.as_str()), Some("ed"));
    assert_eq!(log.change_at(1).description(), "reviewed");
    assert!(log.change_at(1).resp().is_none());
}

#[test]
fn constructs_document_from_title() {
    let document = TeiDocument::from_title_str("King Falls AM").expect("valid document");
    assert_eq!(document.title().as_str(), "King Falls AM");
}

#[test]
fn converts_document_title_error_into_tei_error() {
    let error: TeiError = DocumentTitleError::Empty.into();
    assert!(matches!(
        error,
        TeiError::DocumentTitle(DocumentTitleError::Empty)
    ));
}

#[test]
fn converts_body_content_error_into_tei_error() {
    let error: TeiError = BodyContentError::EmptySpeaker.into();
    assert!(matches!(error, TeiError::Body(BodyContentError::EmptySpeaker)));
}

#[test]
fn converts_header_validation_error_into_tei_error() {
    let error: TeiError = HeaderValidationError::EmptyField { field: "header" }.into();

    assert!(matches!(
        error,
        TeiError::Header(HeaderValidationError::EmptyField { field: "header" })
    ));
}

#[test]
fn converts_identifier_validation_error_into_tei_error() {
    let error: TeiError = IdentifierValidationError::Empty.into();

    assert!(matches!(
        error,
        TeiError::Identifier(IdentifierValidationError::Empty)
    ));
}

#[test]
fn converts_speaker_validation_error_into_tei_error() {
    let error: TeiError = SpeakerValidationError::Empty.into();

    assert!(matches!(
        error,
        TeiError::Speaker(SpeakerValidationError::Empty)
    ));
}

#[test]
fn trims_and_validates_titles() {
    let title = DocumentTitle::new("Voynich Manuscript").expect("valid title");
    assert_eq!(title.as_str(), "Voynich Manuscript");
    let padded = DocumentTitle::new("  The Magnus Archives  ").expect("valid title");
    assert_eq!(padded.as_str(), "The Magnus Archives");
}

#[test]
fn rejects_empty_titles() {
    assert_eq!(DocumentTitle::new("").unwrap_err(), DocumentTitleError::Empty);
    assert_eq!(DocumentTitle::new("    ").unwrap_err(), DocumentTitleError::Empty);
}

#[test]
fn speaker_names_and_language_tags_validate() {
    assert!(matches!(
        chutoro::SpeakerName::new("   "),
        Err(HeaderValidationError::EmptyField { field: "speaker" })
    ));
    assert_eq!(
        chutoro::SpeakerName::new(" Keisha ").expect("valid").as_str(),
        "Keisha"
    );
    assert!(matches!(
        chutoro::LanguageTag::new(" "),
        Err(HeaderValidationError::EmptyField { field: "language" })
    ));
    assert_eq!(
        chutoro::LanguageTag::new("en-GB").expect("valid").into_inner(),
        "en-GB"
    );
}
