use vstd::prelude::*;

verus! {

/// Errors reported by the text front-end, the archive loader and the model cache.
#[derive(Debug)]
pub enum Sbv2CoreError {
    /// No model under this identity, or an archive member that is absent.
    ModelNotFoundError(String),
    /// A phrase whose distinct tone values are not one of the accepted shapes.
    InvalidToneValues(Vec<(String, i32)>),
    /// A phoneme of the punctuated sequence that the tone list does not account for.
    MismatchedPhoneme(String),
    /// A reading that holds no katakana.
    NotKatakana(String),
    /// A morpheme record that lacks the surface or the reading field.
    MalformedFeature(String),
    /// An upstream invariant that did not hold (stream markers out of place).
    InternalConsistency(String),
    /// The archive could not be decompressed or unpacked.
    ArchiveError(String),
    /// A phoneme that the vocoder's inventory does not hold.
    UnknownPhoneme(String),
    /// The subword tokenizer failed; its message.
    TokenizersError(String),
}

} // verus!
