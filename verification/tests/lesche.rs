use kallip_tagma::lesche::attachment_label;
use kallip_tagma::profiles::Modality;

#[test]
fn attachment_label_follows_the_declared_modality() {
    assert_eq!(attachment_label(Some(Modality::Image)), "image");
    assert_eq!(attachment_label(None), "image");
    assert_eq!(attachment_label(Some(Modality::Audio)), "audio");
    assert_eq!(attachment_label(Some(Modality::Video)), "video");
    assert_eq!(attachment_label(Some(Modality::Text)), "text");
}
