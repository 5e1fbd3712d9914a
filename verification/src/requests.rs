//! The decisions of the two request handlers, as step functions: given what
//! just happened (an event), the action to take next.  The server performs
//! the action (reading the multipart body, looking in the store or the
//! cache, running the analysis) and feeds back the next event.

use vstd::prelude::*;
use crate::service::{is_image_field, is_image_field_spec, required_image_id};

verus! {

/// What reading an upload's multipart body produced.
pub enum UploadEvent {
    /// The next field, with its name and content type (empty when absent).
    Field { name: String, content_type: String },
    /// The bytes of the field that was read.
    FieldBytes(Vec<u8>),
    /// Reading the field's bytes failed; the error's message.
    FieldFailed(String),
    /// The body has no more fields.
    NoMoreFields,
    /// The body could not be parsed; the error's message.
    BodyFailed(String),
}

/// Why an upload is refused.
pub enum UploadRejection {
    ReadFailed(String),
    MalformedBody(String),
    NoImageField,
}

/// What to do next with an upload.
pub enum UploadAction {
    /// Read the current field's bytes.
    ReadField,
    /// Go on to the next field.
    NextField,
    /// The image bytes have been found.
    Accept(Vec<u8>),
    /// Answer with an error.
    Reject(UploadRejection),
}

/// The action that follows an upload event: an image field (see
/// `is_image_field_spec`) is read, and its bytes are taken when there are
/// any; an empty one is passed over, as are other fields.
pub open spec fn upload_step_spec(event: UploadEvent) -> UploadAction {
    match event {
        UploadEvent::Field { name, content_type } => if is_image_field_spec(name@, content_type@) {
            UploadAction::ReadField
        } else {
            UploadAction::NextField
        },
        UploadEvent::FieldBytes(bytes) => if bytes@.len() > 0 {
            UploadAction::Accept(bytes)
        } else {
            UploadAction::NextField
        },
        UploadEvent::FieldFailed(msg) => UploadAction::Reject(UploadRejection::ReadFailed(msg)),
        UploadEvent::NoMoreFields => UploadAction::Reject(UploadRejection::NoImageField),
        UploadEvent::BodyFailed(msg) => UploadAction::Reject(UploadRejection::MalformedBody(msg)),
    }
}

/// Decides the next step of reading an upload.
pub fn upload_step(event: UploadEvent) -> (action: UploadAction)
    ensures
        action == upload_step_spec(event),
{
    match event {
        UploadEvent::Field { name, content_type } => {
            if is_image_field(name.as_str(), content_type.as_str()) {
                UploadAction::ReadField
            } else {
                UploadAction::NextField
            }
        },
        UploadEvent::FieldBytes(bytes) => {
            if bytes.len() > 0 {
                UploadAction::Accept(bytes)
            } else {
                UploadAction::NextField
            }
        },
        UploadEvent::FieldFailed(msg) => UploadAction::Reject(UploadRejection::ReadFailed(msg)),
        UploadEvent::NoMoreFields => UploadAction::Reject(UploadRejection::NoImageField),
        UploadEvent::BodyFailed(msg) => UploadAction::Reject(UploadRejection::MalformedBody(msg)),
    }
}

/// The HTTP status of a refused upload: 400 when a field could not be read,
/// 422 for a malformed body or a body without an image field.
pub fn upload_rejection_status(r: &UploadRejection) -> (status: u16)
    ensures
        status == match r {
            UploadRejection::ReadFailed(_) => 400u16,
            _ => 422u16,
        },
{
    match r {
        UploadRejection::ReadFailed(_) => 400,
        UploadRejection::MalformedBody(_) => 422,
        UploadRejection::NoImageField => 422,
    }
}

/// What serving a colour request produced.
pub enum ColorsEvent {
    /// The request arrived with this `image_id` parameter.
    Requested(Option<String>),
    /// The store was searched: whether the image was found.
    ImageLookedUp(bool),
    /// The cache was searched: the colours found, if any.
    CacheLookedUp(Option<Vec<String>>),
    /// The analysis ran: the colours, or the error's message.
    Analysed(Result<Vec<String>, String>),
}

/// Why a colour request is refused.
pub enum ColorsRejection {
    MissingImageId,
    ImageNotFound,
    AnalysisFailed(String),
}

/// What to do next with a colour request.
pub enum ColorsAction {
    /// Look the image up in the store under this id.
    LookUpImage(String),
    /// Look the analysis up in the cache.
    LookUpCache,
    /// Run the analysis.
    Analyse,
    /// Answer with these cached colours.
    Respond(Vec<String>),
    /// Put these fresh colours in the cache and answer with them.
    StoreAndRespond(Vec<String>),
    /// Answer with an error.
    Reject(ColorsRejection),
}

/// The action that follows a colour-request event: a non-empty image id is
/// looked up in the store, a stored image in the cache, a cache miss is
/// analysed, and fresh colours are cached before the answer.
pub open spec fn colors_step_spec(event: ColorsEvent) -> ColorsAction {
    match event {
        ColorsEvent::Requested(param) => match param {
            Some(id) => if id@.len() > 0 {
                ColorsAction::LookUpImage(id)
            } else {
                ColorsAction::Reject(ColorsRejection::MissingImageId)
            },
            None => ColorsAction::Reject(ColorsRejection::MissingImageId),
        },
        ColorsEvent::ImageLookedUp(found) => if found {
            ColorsAction::LookUpCache
        } else {
            ColorsAction::Reject(ColorsRejection::ImageNotFound)
        },
        ColorsEvent::CacheLookedUp(hit) => match hit {
            Some(colors) => ColorsAction::Respond(colors),
            None => ColorsAction::Analyse,
        },
        ColorsEvent::Analysed(result) => match result {
            Ok(colors) => ColorsAction::StoreAndRespond(colors),
            Err(msg) => ColorsAction::Reject(ColorsRejection::AnalysisFailed(msg)),
        },
    }
}

/// Decides the next step of serving a colour request.
pub fn colors_step(event: ColorsEvent) -> (action: ColorsAction)
    ensures
        action == colors_step_spec(event),
{
    match event {
        ColorsEvent::Requested(param) => match required_image_id(param) {
            Some(id) => ColorsAction::LookUpImage(id),
            None => ColorsAction::Reject(ColorsRejection::MissingImageId),
        },
        ColorsEvent::ImageLookedUp(found) => {
            if found {
                ColorsAction::LookUpCache
            } else {
                ColorsAction::Reject(ColorsRejection::ImageNotFound)
            }
        },
        ColorsEvent::CacheLookedUp(hit) => match hit {
            Some(colors) => ColorsAction::Respond(colors),
            None => ColorsAction::Analyse,
        },
        ColorsEvent::Analysed(result) => match result {
            Ok(colors) => ColorsAction::StoreAndRespond(colors),
            Err(msg) => ColorsAction::Reject(ColorsRejection::AnalysisFailed(msg)),
        },
    }
}

/// The HTTP status of a refused colour request: 422 without an image id,
/// 404 for an unknown image, 400 when the analysis failed.
pub fn colors_rejection_status(r: &ColorsRejection) -> (status: u16)
    ensures
        status == match r {
            ColorsRejection::MissingImageId => 422u16,
            ColorsRejection::ImageNotFound => 404u16,
            ColorsRejection::AnalysisFailed(_) => 400u16,
        },
{
    match r {
        ColorsRejection::MissingImageId => 422,
        ColorsRejection::ImageNotFound => 404,
        ColorsRejection::AnalysisFailed(_) => 400,
    }
}

/// The action that ends a colour request when the store answers `found`,
/// the cache answers `cached` and the analysis, if it runs, answers
/// `analysed`: the step function applied to each answer in turn, until it
/// answers the request or refuses it.
pub open spec fn colors_request_outcome(
    param: Option<String>,
    found: bool,
    cached: Option<Vec<String>>,
    analysed: Result<Vec<String>, String>,
) -> ColorsAction {
    match colors_step_spec(ColorsEvent::Requested(param)) {
        ColorsAction::LookUpImage(_) => match colors_step_spec(ColorsEvent::ImageLookedUp(found)) {
            ColorsAction::LookUpCache => match colors_step_spec(ColorsEvent::CacheLookedUp(cached)) {
                ColorsAction::Analyse => colors_step_spec(ColorsEvent::Analysed(analysed)),
                other => other,
            },
            other => other,
        },
        other => other,
    }
}

/// A whole colour request: without a non-empty image id it is refused as
/// missing; for an image not in the store it is refused as not found; a
/// cached analysis is answered as it is; otherwise the analysis runs, and
/// its colours are cached and answered, or its failure is the answer.  The
/// exchange always ends in an answer or a refusal.
pub proof fn lemma_colors_request(
    param: Option<String>,
    found: bool,
    cached: Option<Vec<String>>,
    analysed: Result<Vec<String>, String>,
)
    ensures
        colors_request_outcome(param, found, cached, analysed) == if !(param matches Some(id)
            && id@.len() > 0) {
            ColorsAction::Reject(ColorsRejection::MissingImageId)
        } else if !found {
            ColorsAction::Reject(ColorsRejection::ImageNotFound)
        } else {
            match cached {
                Some(colors) => ColorsAction::Respond(colors),
                None => match analysed {
                    Ok(colors) => ColorsAction::StoreAndRespond(colors),
                    Err(msg) => ColorsAction::Reject(ColorsRejection::AnalysisFailed(msg)),
                },
            }
        },
        match colors_request_outcome(param, found, cached, analysed) {
            ColorsAction::Respond(_) | ColorsAction::StoreAndRespond(_) | ColorsAction::Reject(_) => true,
            _ => false,
        },
{
}

/// A multipart field is read as the image when it is named `image` or
/// `file`, whatever its content type, and when its content type starts with
/// `image/`, whatever its name; any other field is passed over.
pub proof fn lemma_image_fields_are_read(name: String, content_type: String)
    ensures
        name@ == seq!['i', 'm', 'a', 'g', 'e'] || name@ == seq!['f', 'i', 'l', 'e'] ==> upload_step_spec(
            UploadEvent::Field { name, content_type },
        ) is ReadField,
        content_type@.len() >= 6 && content_type@[0] == 'i' && content_type@[1] == 'm'
            && content_type@[2] == 'a' && content_type@[3] == 'g' && content_type@[4] == 'e'
            && content_type@[5] == '/' ==> upload_step_spec(
            UploadEvent::Field { name, content_type },
        ) is ReadField,
        !(name@ == seq!['i', 'm', 'a', 'g', 'e'] || name@ == seq!['f', 'i', 'l', 'e']) && !(
        content_type@.len() >= 6 && content_type@[0] == 'i' && content_type@[1] == 'm'
            && content_type@[2] == 'a' && content_type@[3] == 'g' && content_type@[4] == 'e'
            && content_type@[5] == '/') ==> upload_step_spec(
            UploadEvent::Field { name, content_type },
        ) is NextField,
{
    let ct = content_type@;
    if ct.len() >= 6 {
        let p = seq!['i', 'm', 'a', 'g', 'e', '/'];
        if ct[0] == 'i' && ct[1] == 'm' && ct[2] == 'a' && ct[3] == 'g' && ct[4] == 'e' && ct[5]
            == '/' {
            assert(ct.take(6) =~= p);
        } else if ct.take(6) == p {
            assert(ct.take(6)[0] == ct[0] && ct.take(6)[1] == ct[1] && ct.take(6)[2] == ct[2]);
            assert(ct.take(6)[3] == ct[3] && ct.take(6)[4] == ct[4] && ct.take(6)[5] == ct[5]);
        }
    }
}

} // verus!
