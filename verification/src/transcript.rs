//! Speech-to-text glue: the model file that a model size names, and the
//! text assembled from the segments that the model returns.
use vstd::prelude::*;

use crate::text::{trim, trimmed};

verus! {

/// The file name of the model of a size, `ggml-<size>.bin`.
pub open spec fn model_file_of(model_size: Seq<char>) -> Seq<char> {
    "ggml-"@ + model_size + ".bin"@
}

/// Where the model files are downloaded from.
pub open spec fn model_base_url() -> Seq<char> {
    "https://huggingface.co/ggerganov/whisper.cpp/resolve/main/"@
}

/// The file name of the model of size `model_size`.
pub fn model_file_name(model_size: &str) -> (r: String)
    ensures
        r@ == model_file_of(model_size@),
{
    let name = String::from_str("ggml-").concat(model_size).concat(".bin");
    name
}

/// The download address of the model of size `model_size`.
pub fn model_url(model_size: &str) -> (r: String)
    ensures
        r@ == model_base_url() + model_file_of(model_size@),
{
    let file = model_file_name(model_size);
    let url = String::from_str("https://huggingface.co/ggerganov/whisper.cpp/resolve/main/").concat(
        file.as_str(),
    );
    assert(url@ =~= model_base_url() + model_file_of(model_size@));
    url
}

/// Each segment trimmed and followed by one space.
pub open spec fn segments_text(segments: Seq<Seq<char>>) -> Seq<char> {
    segments.map_values(|s: Seq<char>| trim(s) + seq![' ']).flatten()
}

/// The transcript of a recognition pass: its segments, each trimmed and
/// followed by one space, the whole then trimmed (a blank segment thus
/// leaves two spaces between its neighbours).
pub fn join_segments(segments: &Vec<String>) -> (r: String)
    ensures
        r@ == trim(segments_text(segments.deep_view())),
{
    let ghost ss = segments.deep_view();
    let mut text = String::new();
    let mut k: usize = 0;
    proof {
        reveal_strlit(" ");
        assert(ss.take(0).map_values(|s: Seq<char>| trim(s) + seq![' ']).flatten() =~= Seq::<
            char,
        >::empty());
    }
    while k < segments.len()
        invariant
            ss == segments.deep_view(),
            k <= segments.len(),
            text@ == segments_text(ss.take(k as int)),
            " "@ == seq![' '],
        decreases segments.len() - k,
    {
        let piece = trimmed(segments[k].as_str());
        let ghost before = text@;
        text.append(piece.as_str());
        text.append(" ");
        proof {
            let f = |s: Seq<char>| trim(s) + seq![' '];
            ss.take(k as int).map_values(f).lemma_flatten_push(f(ss[k as int]));
            assert(ss.take(k + 1).map_values(f) =~= ss.take(k as int).map_values(f).push(
                f(ss[k as int]),
            ));
            assert(text@ =~= before + f(ss[k as int]));
        }
        k = k + 1;
    }
    assert(ss.take(k as int) =~= ss);
    trimmed(text.as_str())
}

} // verus!
