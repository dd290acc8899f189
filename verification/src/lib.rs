//! An error-taxonomy compiler: given plain-data declarations of an
//! application's error types (structs and enums, where an enum variant may
//! delegate to a wrapped error type), derives two artifacts: a total status
//! resolver mapping any error value to an HTTP status code, and a merged
//! catalogue of possible HTTP responses for API documentation.
//!
//! Declarations are loaded from attribute metadata into a schema tree;
//! status resolution honours delegation chains lazily at arbitrary depth;
//! response catalogues are built recursively and merged so that the result
//! does not depend on the order of its inputs, with colliding schemas
//! composed into one-of alternatives, flattened one level.

pub mod attribute;
pub mod body;
pub mod catalogue;
pub mod declaration;
pub mod error;
pub mod merge;
pub mod resolver;
pub mod schema;
pub mod status;
pub mod util;

pub use attribute::Attr;
pub use attribute::HttpErrorAttribute;
pub use attribute::HttpErrorDataAttribute;
pub use attribute::MetaItem;
pub use attribute::MetaValue;
pub use declaration::DataNode;
pub use declaration::FieldNode;
pub use declaration::FieldsNode;
pub use declaration::HttpError;
pub use declaration::HttpErrorData;
pub use declaration::HttpErrorEnum;
pub use declaration::HttpErrorEnumVariant;
pub use declaration::HttpErrorStruct;
pub use declaration::TypeNode;
pub use declaration::VariantNode;
pub use error::AttributeError;
pub use error::DeclarationError;
pub use error::FieldShapeError;
pub use merge::merge_responses;
pub use merge::StatusParseError;
pub use resolver::Declarations;
pub use resolver::ErrorValue;
pub use schema::CatalogueEntry;
pub use schema::ContentEntry;
pub use schema::ResponseCatalogue;
pub use schema::ResponseDescriptor;
pub use schema::Schema;
pub use status::RawStatusCode;
pub use status::Status;
pub use util::Either;
