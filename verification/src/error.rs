//! The ways in which a fabric model can be unfit for a document.

use vstd::prelude::*;
use crate::text::{decimal, push_decimal};

verus! {

/// A fault of the model that ends the pass.
#[derive(Clone, Debug, PartialEq, Eq)]
pub enum WriteError {
    /// A site type has no input pins, so that it has no last input pin.
    NoInputPins { site_type: String },
    /// A tile refers to a tile type that the fabric does not have.
    UnknownTileType { tile: String },
    /// A bonded pad sits on a side that is none of `T`, `B`, `L`, `R` and the
    /// empty side.
    UnknownSide { side: String },
    /// A bonded pad on one of the four sides has an I/O index other than 0 or 1.
    BadIoIndex { io_index: i32 },
    /// An index, a handle or a count of the document does not fit its field.
    IndexOverflow,
    /// The compressor gave no stream, or one that is no gzip frame of the data.
    Compression,
}

/// The deep view of a [`WriteError`].
pub enum WriteErrorView {
    NoInputPins { site_type: Seq<char> },
    UnknownTileType { tile: Seq<char> },
    UnknownSide { side: Seq<char> },
    BadIoIndex { io_index: i32 },
    IndexOverflow,
    Compression,
}

impl DeepView for WriteError {
    type V = WriteErrorView;

    open spec fn deep_view(&self) -> WriteErrorView {
        match self {
            WriteError::NoInputPins { site_type } => WriteErrorView::NoInputPins {
                site_type: site_type@,
            },
            WriteError::UnknownTileType { tile } => WriteErrorView::UnknownTileType { tile: tile@ },
            WriteError::UnknownSide { side } => WriteErrorView::UnknownSide { side: side@ },
            WriteError::BadIoIndex { io_index } => WriteErrorView::BadIoIndex {
                io_index: *io_index,
            },
            WriteError::IndexOverflow => WriteErrorView::IndexOverflow,
            WriteError::Compression => WriteErrorView::Compression,
        }
    }
}

/// The text of a fault.
pub open spec fn message_of(error: WriteErrorView) -> Seq<char> {
    match error {
        WriteErrorView::NoInputPins { site_type } => "site type "@ + site_type + " has no inputs"@,
        WriteErrorView::UnknownTileType { tile } => "tile "@ + tile + " has an unknown tile type"@,
        WriteErrorView::UnknownSide { side } => "pad side "@ + side + " is not implemented"@,
        WriteErrorView::BadIoIndex { io_index } => "pad I/O index "@ + decimal(io_index as int)
            + " is neither 0 nor 1"@,
        WriteErrorView::IndexOverflow => "an index does not fit its field in the document"@,
        WriteErrorView::Compression => "the document could not be compressed"@,
    }
}

impl WriteError {
    /// The text of the fault, naming what is at fault.
    pub fn message(&self) -> (text: String)
        ensures
            text@ == message_of(self.deep_view()),
    {
        let mut text = String::new();
        match self {
            WriteError::NoInputPins { site_type } => {
                text.append("site type ");
                text.append(site_type.as_str());
                text.append(" has no inputs");
            },
            WriteError::UnknownTileType { tile } => {
                text.append("tile ");
                text.append(tile.as_str());
                text.append(" has an unknown tile type");
            },
            WriteError::UnknownSide { side } => {
                text.append("pad side ");
                text.append(side.as_str());
                text.append(" is not implemented");
            },
            WriteError::BadIoIndex { io_index } => {
                text.append("pad I/O index ");
                push_decimal(&mut text, *io_index as i64);
                text.append(" is neither 0 nor 1");
            },
            WriteError::IndexOverflow => {
                text.append("an index does not fit its field in the document");
            },
            WriteError::Compression => {
                text.append("the document could not be compressed");
            },
        }
        assert(text@ =~= message_of(self.deep_view()));
        text
    }
}

} // verus!
