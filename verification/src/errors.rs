use vstd::prelude::*;

verus! {

/// The failure kinds surfaced by the layer, as ghost values: each variant
/// mirrors one variant of [`SqlLayerError`] with its payload as a view.
pub enum ErrorView {
    StorageFailure(Seq<char>),
    SerializationFailure,
    TableNotFound(Seq<char>),
    TableAlreadyExists(Seq<char>),
    IndexNotFound(Seq<char>),
    MissingColumn(Seq<char>),
    MismatchedColumnType(Seq<char>, Seq<char>),
}

/// The failure kinds surfaced by the layer.
#[derive(Debug, Clone, PartialEq)]
pub enum SqlLayerError {
    /// A key-value engine error that the retry driver surfaced as terminal,
    /// with the engine's message.
    StorageFailure(String),
    /// Encoding or decoding of a schema, table metadata, or row payload failed.
    SerializationFailure,
    /// `add_index` named a table that does not exist.
    TableNotFound(String),
    /// Reserved for a future existence check in `create_table`.
    TableAlreadyExists(String),
    /// Reserved for future index lookups.
    IndexNotFound(String),
    /// A primary-key or index field is absent from the record.
    MissingColumn(String),
    /// A record value's type differs from the schema field type
    /// (expected type name, found type name).
    MismatchedColumnType(String, String),
}

impl View for SqlLayerError {
    type V = ErrorView;

    open spec fn view(&self) -> ErrorView {
        match self {
            SqlLayerError::StorageFailure(m) => ErrorView::StorageFailure(m@),
            SqlLayerError::SerializationFailure => ErrorView::SerializationFailure,
            SqlLayerError::TableNotFound(n) => ErrorView::TableNotFound(n@),
            SqlLayerError::TableAlreadyExists(n) => ErrorView::TableAlreadyExists(n@),
            SqlLayerError::IndexNotFound(n) => ErrorView::IndexNotFound(n@),
            SqlLayerError::MissingColumn(n) => ErrorView::MissingColumn(n@),
            SqlLayerError::MismatchedColumnType(e, f) => ErrorView::MismatchedColumnType(e@, f@),
        }
    }
}

impl DeepView for SqlLayerError {
    type V = ErrorView;

    open spec fn deep_view(&self) -> ErrorView {
        self.view()
    }
}

} // verus!
