use color_api::requests::{
    colors_rejection_status, colors_step, upload_rejection_status, upload_step, ColorsAction,
    ColorsEvent, ColorsRejection, UploadAction, UploadEvent, UploadRejection,
};

fn field(name: &str, content_type: &str) -> UploadEvent {
    UploadEvent::Field { name: name.to_string(), content_type: content_type.to_string() }
}

#[test]
fn upload_reads_image_fields_only() {
    assert!(matches!(upload_step(field("image", "")), UploadAction::ReadField));
    assert!(matches!(upload_step(field("file", "text/plain")), UploadAction::ReadField));
    assert!(matches!(upload_step(field("x", "image/jpeg")), UploadAction::ReadField));
    assert!(matches!(upload_step(field("caption", "text/plain")), UploadAction::NextField));
}

#[test]
fn upload_takes_non_empty_bytes() {
    match upload_step(UploadEvent::FieldBytes(vec![1, 2, 3])) {
        UploadAction::Accept(b) => assert_eq!(b, vec![1, 2, 3]),
        _ => panic!("expected the bytes to be taken"),
    }
    assert!(matches!(upload_step(UploadEvent::FieldBytes(Vec::new())), UploadAction::NextField));
}

#[test]
fn upload_rejections_and_statuses() {
    match upload_step(UploadEvent::FieldFailed("boom".to_string())) {
        UploadAction::Reject(r) => {
            assert_eq!(upload_rejection_status(&r), 400);
            assert!(matches!(r, UploadRejection::ReadFailed(m) if m == "boom"));
        }
        _ => panic!("expected a rejection"),
    }
    match upload_step(UploadEvent::BodyFailed("bad".to_string())) {
        UploadAction::Reject(r) => {
            assert_eq!(upload_rejection_status(&r), 422);
            assert!(matches!(r, UploadRejection::MalformedBody(m) if m == "bad"));
        }
        _ => panic!("expected a rejection"),
    }
    match upload_step(UploadEvent::NoMoreFields) {
        UploadAction::Reject(r) => {
            assert_eq!(upload_rejection_status(&r), 422);
            assert!(matches!(r, UploadRejection::NoImageField));
        }
        _ => panic!("expected a rejection"),
    }
}

#[test]
fn colors_request_flow() {
    match colors_step(ColorsEvent::Requested(Some("id-1".to_string()))) {
        ColorsAction::LookUpImage(id) => assert_eq!(id, "id-1"),
        _ => panic!("expected a store lookup"),
    }
    assert!(matches!(
        colors_step(ColorsEvent::Requested(Some(String::new()))),
        ColorsAction::Reject(ColorsRejection::MissingImageId)
    ));
    assert!(matches!(
        colors_step(ColorsEvent::Requested(None)),
        ColorsAction::Reject(ColorsRejection::MissingImageId)
    ));
    assert!(matches!(colors_step(ColorsEvent::ImageLookedUp(true)), ColorsAction::LookUpCache));
    assert!(matches!(
        colors_step(ColorsEvent::ImageLookedUp(false)),
        ColorsAction::Reject(ColorsRejection::ImageNotFound)
    ));
    match colors_step(ColorsEvent::CacheLookedUp(Some(vec!["#FFFFFF".to_string()]))) {
        ColorsAction::Respond(c) => assert_eq!(c, vec!["#FFFFFF".to_string()]),
        _ => panic!("expected the cached colours"),
    }
    assert!(matches!(colors_step(ColorsEvent::CacheLookedUp(None)), ColorsAction::Analyse));
    match colors_step(ColorsEvent::Analysed(Ok(vec!["#000000".to_string()]))) {
        ColorsAction::StoreAndRespond(c) => assert_eq!(c, vec!["#000000".to_string()]),
        _ => panic!("expected fresh colours"),
    }
    assert!(matches!(
        colors_step(ColorsEvent::Analysed(Err("e".to_string()))),
        ColorsAction::Reject(ColorsRejection::AnalysisFailed(_))
    ));
}

#[test]
fn colors_rejection_statuses() {
    assert_eq!(colors_rejection_status(&ColorsRejection::MissingImageId), 422);
    assert_eq!(colors_rejection_status(&ColorsRejection::ImageNotFound), 404);
    assert_eq!(colors_rejection_status(&ColorsRejection::AnalysisFailed("x".to_string())), 400);
}

/// Runs a colour request through the step function with the given answers.
fn run_request(
    param: Option<String>,
    found: bool,
    cached: Option<Vec<String>>,
    analysed: Result<Vec<String>, String>,
) -> ColorsAction {
    let mut event = ColorsEvent::Requested(param);
    let mut cached = Some(cached);
    let mut analysed = Some(analysed);
    loop {
        event = match colors_step(event) {
            ColorsAction::LookUpImage(_) => ColorsEvent::ImageLookedUp(found),
            ColorsAction::LookUpCache => ColorsEvent::CacheLookedUp(cached.take().unwrap()),
            ColorsAction::Analyse => ColorsEvent::Analysed(analysed.take().unwrap()),
            done => return done,
        };
    }
}

#[test]
fn whole_colour_request() {
    let id = Some("img".to_string());
    let hit = vec!["#112233".to_string()];
    let fresh = vec!["#445566".to_string()];
    assert!(matches!(
        run_request(None, true, Some(hit.clone()), Ok(fresh.clone())),
        ColorsAction::Reject(ColorsRejection::MissingImageId)
    ));
    assert!(matches!(
        run_request(id.clone(), false, Some(hit.clone()), Ok(fresh.clone())),
        ColorsAction::Reject(ColorsRejection::ImageNotFound)
    ));
    assert!(matches!(
        run_request(id.clone(), true, Some(hit.clone()), Ok(fresh.clone())),
        ColorsAction::Respond(c) if c == hit
    ));
    assert!(matches!(
        run_request(id.clone(), true, None, Ok(fresh.clone())),
        ColorsAction::StoreAndRespond(c) if c == fresh
    ));
    assert!(matches!(
        run_request(id, true, None, Err("bad".to_string())),
        ColorsAction::Reject(ColorsRejection::AnalysisFailed(m)) if m == "bad"
    ));
}
