//! Data model: request/response types of the service's API surface and the
//! records the export engine works over.
//!
//! Image identifiers are carried as `u128` values (the 128 bits of the
//! service's object identifiers); pixel geometry is carried in integer pixel
//! units.

use vstd::prelude::*;

verus! {

/// The formats a dataset can be exported in. Only the normalized-box text
/// format (`Yolo`) has an encoder; the others are recognised but unsupported.
#[derive(Clone, Copy, Debug, PartialEq, Eq, Structural)]
pub enum DatasetFormat {
    Yolo,
    Coco,
    Voc,
}

impl DatasetFormat {
    /// The lowercase wire name of the format.
    pub fn as_str(&self) -> (r: &'static str)
        ensures
            self is Yolo ==> r@ == "yolo"@,
            self is Coco ==> r@ == "coco"@,
            self is Voc ==> r@ == "voc"@,
    {
        match self {
            DatasetFormat::Yolo => "yolo",
            DatasetFormat::Coco => "coco",
            DatasetFormat::Voc => "voc",
        }
    }
}

/// Geometry kinds an annotation can carry.
#[derive(Clone, Copy, Debug, PartialEq, Eq, Structural)]
pub enum AnnotationType {
    BoundingBox,
    Polygon,
    Point,
}

/// Whether an annotation was drawn by hand or proposed by a model.
#[derive(Clone, Copy, Debug, PartialEq, Eq, Structural)]
pub enum AnnotationSource {
    Manual,
    Ai,
}

/// Roles a user account can hold.
#[derive(Clone, Copy, Debug, PartialEq, Eq, Structural)]
pub enum UserRole {
    Admin,
    Annotator,
    Viewer,
}

/// Request body for creating a user account.
pub struct CreateUserRequest {
    pub cognito_sub: String,
    pub username: String,
    pub email: String,
    pub role: UserRole,
}

/// Request body for registering an image's metadata.
pub struct CreateImageRequest {
    pub filename: String,
    pub file_size: i64,
    pub width: i32,
    pub height: i32,
    pub format: String,
    pub classification_label: Option<String>,
}

/// Request body for a free-text image search.
pub struct ImageSearchRequest {
    pub query: String,
}

/// Request body asking for a presigned upload URL.
pub struct PresignedUrlRequest {
    pub filename: String,
}

/// A presigned upload URL together with the object key it will write.
pub struct PresignedUrlResponse {
    pub url: String,
    pub s3_key: String,
}

/// Request body registering an image that was uploaded through a presigned
/// URL.
pub struct RegisterImageRequest {
    pub s3_key: String,
    pub original_filename: String,
    pub file_size: i64,
    pub width: i32,
    pub height: i32,
    pub format: String,
}

/// The distinct annotation labels currently in use.
pub struct LabelsResponse {
    pub labels: Vec<String>,
}

/// A request payload that has passed structural validation.
pub struct JsonExtractor<T>(pub T);

/// Label filter of an export request: the filter kind and the labels it
/// selects. An empty label list selects every annotated image.
pub struct FilterOptions {
    pub filter_type: String,
    pub labels: Vec<String>,
}

/// An export job: archive name, target format and label filter.
pub struct ExportRequest {
    pub name: String,
    pub format: DatasetFormat,
    pub filter: FilterOptions,
}

/// An image row of the relational store.
pub struct ImageRecord {
    pub id: u128,
    pub s3_bucket: String,
    pub s3_key: String,
    pub original_filename: String,
    pub width: i32,
    pub height: i32,
}

/// An axis-aligned box in integer pixel units, top-left origin.
#[derive(Clone, Copy, Debug, PartialEq, Eq, Structural)]
pub struct PixelBox {
    pub x: i64,
    pub y: i64,
    pub w: i64,
    pub h: i64,
}

/// An annotation row: the image it belongs to, its label, and its box
/// geometry if it has any. Point and polygon geometry carries no box and is
/// never encoded.
pub struct AnnotationRecord {
    pub image_id: u128,
    pub label: String,
    pub bbox: Option<PixelBox>,
}

/// One object of the blob store, addressed by bucket and key.
pub struct BlobObject {
    pub bucket: String,
    pub key: String,
    pub data: Vec<u8>,
}

/// One image's fully fetched state: its record, its raw bytes, and its
/// annotations.
pub struct AggregatedImage {
    pub image: ImageRecord,
    pub data: Vec<u8>,
    pub annotations: Vec<AnnotationRecord>,
}

/// Which of the three per-image fetches failed. The snapshot-based engine
/// produces the first two; the I/O layer reports a failed annotation
/// listing with the third.
#[derive(Clone, Copy, Debug, PartialEq, Eq, Structural)]
pub enum FetchCause {
    /// The image record could not be fetched from the relational store.
    RecordUnavailable,
    /// The image bytes could not be fetched from the blob store.
    BlobUnavailable,
    /// The annotation list could not be fetched from the relational store.
    AnnotationsUnavailable,
}

/// The outcome of the three fetches for one resolved image id: the fully
/// fetched image, or which fetch failed.
pub struct FetchResult {
    pub id: u128,
    pub outcome: Result<AggregatedImage, FetchCause>,
}

/// The mathematical view of an aggregated image: its record, its byte
/// sequence, and its annotation sequence.
pub struct AggView {
    pub image: ImageRecord,
    pub data: Seq<u8>,
    pub annotations: Seq<AnnotationRecord>,
}

impl View for AggregatedImage {
    type V = AggView;

    open spec fn view(&self) -> AggView {
        AggView { image: self.image, data: self.data@, annotations: self.annotations@ }
    }
}

/// The view of one per-image fetch outcome.
pub struct FetchView {
    pub id: u128,
    pub outcome: Result<AggView, FetchCause>,
}

impl View for FetchResult {
    type V = FetchView;

    open spec fn view(&self) -> FetchView {
        FetchView {
            id: self.id,
            outcome: if self.outcome is Ok {
                Ok(self.outcome->Ok_0@)
            } else {
                Err(self.outcome->Err_0)
            },
        }
    }
}

/// The views of a sequence of aggregated images.
pub open spec fn agg_views(s: Seq<AggregatedImage>) -> Seq<AggView> {
    s.map_values(|x: AggregatedImage| x@)
}

/// The views of a sequence of fetch outcomes.
pub open spec fn fetch_views(s: Seq<FetchResult>) -> Seq<FetchView> {
    s.map_values(|x: FetchResult| x@)
}

/// The distinct failure outcomes of an export job.
#[derive(Clone, Copy, Debug, PartialEq, Eq, Structural)]
pub enum ExportError {
    /// The annotation store could not be reached during resolution.
    DataUnavailable,
    /// The filter matched no annotated image.
    NotFound,
    /// A fetch for the carried image id failed, for the carried cause; the
    /// whole job is aborted.
    AggregationFailed(u128, FetchCause),
    /// The aggregated annotations carry no label at all.
    NoLabelsFound,
    /// The requested format has no encoder.
    UnsupportedFormat,
    /// Writing the archive failed; no partial archive is returned.
    ArchiveWriteFailed,
}

impl ExportError {
    /// The HTTP status the surrounding service maps each outcome to:
    /// "nothing matched" outcomes are 404, an unsupported format is 501,
    /// infrastructure faults are 500.
    pub fn http_status(&self) -> (s: u16)
        ensures
            s == match self {
                ExportError::DataUnavailable => 500u16,
                ExportError::NotFound => 404u16,
                ExportError::AggregationFailed(_, _) => 500u16,
                ExportError::NoLabelsFound => 404u16,
                ExportError::UnsupportedFormat => 501u16,
                ExportError::ArchiveWriteFailed => 500u16,
            },
    {
        match self {
            ExportError::DataUnavailable => 500,
            ExportError::NotFound => 404,
            ExportError::AggregationFailed(_, _) => 500,
            ExportError::NoLabelsFound => 404,
            ExportError::UnsupportedFormat => 501,
            ExportError::ArchiveWriteFailed => 500,
        }
    }
}

} // verus!
