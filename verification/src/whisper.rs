//! Speech-to-text collaborator types.
//!
//! The transcription engine is a native-library collaborator consumed
//! through a narrow interface around this core. What belongs here is its
//! error vocabulary and the assembly of the per-segment texts it returns
//! into one transcript.

use vstd::prelude::*;
use vstd::string::StringExecFns;

verus! {

/// Why loading a model or transcribing samples failed.
#[derive(Debug)]
pub enum WhisperError {
    /// The model file could not be loaded; the engine's own words inside.
    ModelLoad(String),
    /// Running the model over the samples failed.
    Transcription(String),
    /// The context was already closed.
    Closed,
}

impl WhisperError {
    /// A description of the error, with the engine's words appended.
    pub fn message(&self) -> (r: String)
        ensures
            r@ == match self {
                WhisperError::ModelLoad(e) => "failed to load model: "@ + e@,
                WhisperError::Transcription(e) => "transcription failed: "@ + e@,
                WhisperError::Closed => "context already closed"@,
            },
    {
        match self {
            WhisperError::ModelLoad(e) => String::from_str("failed to load model: ").concat(
                e.as_str(),
            ),
            WhisperError::Transcription(e) => String::from_str("transcription failed: ").concat(
                e.as_str(),
            ),
            WhisperError::Closed => String::from_str("context already closed"),
        }
    }
}

/// The views of a sequence of strings.
pub open spec fn string_views(s: Seq<String>) -> Seq<Seq<char>> {
    s.map_values(|t: String| t@)
}

/// The transcript assembled from the engine's per-segment texts: their
/// characters concatenated in segment order, nothing added in between.
pub fn join_segments(segments: &Vec<String>) -> (r: String)
    ensures
        r@ == string_views(segments@).flatten(),
{
    let mut out: String = String::new();
    proof {
        assert(string_views(segments@).take(0) =~= Seq::<Seq<char>>::empty());
        assert(string_views(segments@).take(0).flatten() =~= Seq::<char>::empty());
    }
    let mut i: usize = 0;
    while i < segments.len()
        invariant
            0 <= i <= segments.len(),
            out@ == string_views(segments@).take(i as int).flatten(),
        decreases segments.len() - i,
    {
        out.append(segments[i].as_str());
        proof {
            let m = string_views(segments@);
            assert(m.take(i + 1) =~= m.take(i as int).push(m[i as int]));
            m.take(i as int).lemma_flatten_push(m[i as int]);
        }
        i += 1;
    }
    proof {
        assert(string_views(segments@).take(segments@.len() as int) =~= string_views(segments@));
    }
    out
}

} // verus!
