//! Behaviour of the TEI text model: bodies, paragraphs, utterances and the
//! validated attribute wrappers.

use chutoro::{
    BodyBlock, BodyContentError, IdentifierValidationError, Inline, Speaker,
    SpeakerValidationError, TeiBody, TeiText, Utterance, XmlId, P,
};

fn sample_paragraph() -> P {
    P::new(vec!["Setup".to_string()]).expect("valid paragraph")
}

fn sample_utterance() -> Utterance {
    Utterance::new(Some("host"), vec!["Hello".to_string()]).expect("valid utterance")
}

#[test]
fn text_text_reports_emptiness() {
    let mut text = TeiText::empty();
    assert!(text.is_empty());

    let paragraph = P::new(vec!["Intro paragraph".to_string()]).expect("valid paragraph");
    text.push_paragraph(paragraph);
    assert!(!text.is_empty());
}

#[test]
fn mod_text_reports_emptiness() {
    let mut text = TeiText::empty();
    assert!(text.is_empty());

    let paragraph = P::new(vec!["Intro paragraph".to_string()]).expect("valid paragraph");
    text.push_paragraph(paragraph);
    assert!(!text.is_empty());
}

#[test]
fn text_body_preserves_insertion_order() {
    let mut body = TeiBody::new(Vec::new());

    body.push_paragraph(sample_paragraph());
    body.push_utterance(sample_utterance());

    let expected = [
        BodyBlock::Paragraph(sample_paragraph()),
        BodyBlock::Utterance(sample_utterance()),
    ];
    assert_eq!(body.blocks(), expected.as_slice());
}

#[test]
fn mod_body_preserves_insertion_order() {
    let mut body = TeiBody::new(Vec::new());

    body.push_paragraph(sample_paragraph());
    body.push_utterance(sample_utterance());

    let expected = [
        BodyBlock::Paragraph(sample_paragraph()),
        BodyBlock::Utterance(sample_utterance()),
    ];
    assert_eq!(body.blocks(), expected.as_slice());
}

#[test]
fn body_iterators_filter_by_variant() {
    let mut body = TeiBody::new(Vec::new());
    body.push_paragraph(sample_paragraph());
    body.push_utterance(sample_utterance());

    let expected_paragraph = sample_paragraph();
    let expected_utterance = sample_utterance();
    assert_eq!(body.paragraphs(), vec![&expected_paragraph]);
    assert_eq!(body.utterances(), vec![&expected_utterance]);
}

#[test]
fn text_rejects_empty_paragraph_segments() {
    let result = P::new(Vec::<String>::new());
    assert!(matches!(
        result,
        Err(BodyContentError::EmptyContent { container }) if container == "paragraph"
    ));
}

#[test]
fn paragraph_rejects_empty_paragraph_segments() {
    let result = P::from_text_segments(Vec::<String>::new());
    assert!(matches!(
        result,
        Err(BodyContentError::EmptyContent { container }) if container == "paragraph"
    ));
}

#[test]
fn text_rejects_empty_utterance_segments() {
    let result = Utterance::new(None, Vec::<String>::new());
    assert!(matches!(
        result,
        Err(BodyContentError::EmptyContent { container }) if container == "utterance"
    ));
}

#[test]
fn utterance_rejects_empty_utterance_segments() {
    let result = Utterance::new(None, Vec::<String>::new());
    assert!(matches!(
        result,
        Err(BodyContentError::EmptyContent { container }) if container == "utterance"
    ));
}

#[test]
fn text_rejects_blank_speaker_reference() {
    let result = Utterance::new(Some("   "), vec!["Hello".to_string()]);
    assert!(matches!(result, Err(BodyContentError::EmptySpeaker)));
}

#[test]
fn utterance_rejects_blank_speaker_reference() {
    let result = Utterance::new(Some("   "), vec!["Hello".to_string()]);
    assert!(matches!(result, Err(BodyContentError::EmptySpeaker)));
}

#[test]
fn exposes_content_as_inline_nodes() {
    let paragraph = P::from_text_segments(vec!["Hello world".to_string()])
        .unwrap_or_else(|error| panic!("paragraph should be valid: {error:?}"));

    let expected = [Inline::text("Hello world")];
    assert_eq!(paragraph.content(), expected.as_slice());
}

#[test]
fn records_inline_content() {
    let utterance =
        Utterance::new(Some("host"), vec!["Hello".to_string()]).expect("valid utterance");

    let expected = [Inline::text("Hello")];
    assert_eq!(utterance.content(), expected.as_slice());
}

#[test]
fn xml_id_accepts_trimmed_identifiers() {
    let identifier = XmlId::new("  intro ")
        .unwrap_or_else(|error| panic!("identifier should be normalised: {error:?}"));
    assert_eq!(identifier.as_str(), "intro");
}

#[test]
fn xml_id_rejects_identifiers_with_whitespace() {
    let result = XmlId::new("identifier with space");
    assert!(matches!(
        result,
        Err(IdentifierValidationError::ContainsWhitespace)
    ));
}

#[test]
fn xml_id_display_matches_as_str() {
    let id =
        XmlId::new("intro").unwrap_or_else(|error| panic!("identifier should validate: {error:?}"));
    assert_eq!(id.to_string(), id.as_str());
}

#[test]
fn speaker_rejects_empty_values() {
    let result = Speaker::new("   ");
    assert!(matches!(result, Err(SpeakerValidationError::Empty)));
}

#[test]
fn speaker_accepts_trimmed_values() {
    let speaker = Speaker::new("  host  ")
        .unwrap_or_else(|error| panic!("speaker should be normalised: {error:?}"));
    assert_eq!(speaker.as_str(), "host");
}

#[test]
fn speaker_try_from_str_validates() {
    let result = Speaker::try_from("   ");
    assert!(matches!(result, Err(SpeakerValidationError::Empty)));
}

#[test]
fn rejects_identifier_with_whitespace() {
    let mut paragraph = P::from_text_segments(vec!["content".to_string()]).expect("valid");
    let Err(error) = paragraph.set_id("identifier with space") else {
        panic!("identifier whitespace should be rejected");
    };
    assert_eq!(
        error,
        BodyContentError::InvalidIdentifier {
            container: "paragraph"
        }
    );

    let mut utterance =
        Utterance::new(Some("host"), vec!["hello".to_string()]).expect("valid utterance");
    let Err(error) = utterance.set_id("identifier with space") else {
        panic!("identifier whitespace should be rejected");
    };
    assert_eq!(
        error,
        BodyContentError::InvalidIdentifier {
            container: "utterance"
        }
    );
}

#[test]
fn hi_records_children() {
    let hi = chutoro::Hi::try_new(vec![Inline::text("emphasis")]).expect("valid emphasis");

    let content = hi.content();
    assert_eq!(content.len(), 1);
    assert_eq!(content.first().and_then(|i| i.as_text()), Some("emphasis"));
}

#[test]
fn hi_try_new_rejects_empty_content() {
    let result = chutoro::Hi::try_new(Vec::<Inline>::new());

    assert!(matches!(
        result,
        Err(BodyContentError::EmptyContent { container }) if container == "hi"
    ));
}

#[test]
fn hi_push_inline_rejects_blank_text() {
    let mut hi = chutoro::Hi::try_new(vec![Inline::text("visible")]).expect("valid emphasis");

    let result = hi.push_inline(Inline::text("   "));

    assert!(matches!(
        result,
        Err(BodyContentError::EmptySegment { container }) if container == "hi"
    ));
}

#[test]
fn hi_try_with_rend_records_hint() {
    let hi = chutoro::Hi::try_with_rend("stress", vec![Inline::text("emphasis")])
        .expect("valid emphasised inline");

    assert_eq!(hi.rend(), Some("stress"));
    let expected = [Inline::text("emphasis")];
    assert_eq!(hi.content(), expected.as_slice());
}

#[test]
fn pause_records_duration_and_kind() {
    let mut pause = chutoro::Pause::new();
    pause.set_duration("PT1S");
    pause.set_kind("breath");

    assert_eq!(pause.duration(), Some("PT1S"));
    assert_eq!(pause.kind(), Some("breath"));
}

#[test]
fn nested_emphasis_validates_recursively() {
    let inner = Inline::hi(vec![Inline::text("   ")]);
    let result = P::from_inline(vec![inner]);
    assert!(matches!(
        result,
        Err(BodyContentError::EmptySegment { container }) if container == "paragraph"
    ));

    let empty_inner = Inline::hi(Vec::new());
    let result = P::from_inline(vec![empty_inner]);
    assert!(matches!(
        result,
        Err(BodyContentError::EmptyContent { container }) if container == "paragraph"
    ));
}
