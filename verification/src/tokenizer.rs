//! The inference engine's front end: the Chinese-capable segmenter with its
//! hot-loaded custom dictionary, the date pre-extraction, and the `infer`
//! entry point that feeds whatever tokens come back into the verified
//! decision pipeline.

use vstd::prelude::*;
use crate::models::{DimensionValue, InferenceOptions, MetricDimensionEdge, NodeRole};
use crate::text::{contains_sub, trim_spec, trim_str};
use crate::fst_engine::FstEngine;
use crate::inference::{
    infer_result_view, infer_spec, infer_tokens, InferenceError, InferenceResult,
};

verus! {

#[verifier::external_type_specification]
#[verifier::external_body]
pub struct ExJieba(jieba_rs::Jieba);

/// The first date-shaped capture of a text, if any: what the fixed
/// `\d{4}-\d{2}-\d{2}` pattern finds, a function of the text alone.
pub uninterp spec fn date_capture_of(s: Seq<char>) -> Option<Seq<char>>;

/// Relies on regex::Regex::new on the fixed date pattern, which always
/// compiles, and regex::Regex::captures: the leftmost match, deterministic
/// in the text; a match is ten characters shaped like a date and occurs in
/// the text.
#[verifier::external_body]
pub fn capture_date(text: &str) -> (r: Option<String>)
    ensures
        match r {
            Some(d) => date_capture_of(text@) == Some(d@) && d@.len() == 10 && d@[4] == '-'
                && d@[7] == '-' && contains_sub(text@, d@),
            None => date_capture_of(text@) is None,
        },
{
    let re = regex::Regex::new(r"(\d{4}-\d{2}-\d{2})").unwrap();
    re.captures(text).map(|cap| cap[1].to_string())
}

/// Relies on jieba_rs::Jieba::new: a segmenter over the embedded default
/// dictionary.
#[verifier::external_body]
fn jieba_new() -> (j: jieba_rs::Jieba) {
    jieba_rs::Jieba::new()
}

/// Relies on jieba_rs::Jieba::add_word: records the word in the dictionary
/// with a fixed high priority, so the segmenter keeps it whole.
#[verifier::external_body]
fn jieba_add_word(j: &mut jieba_rs::Jieba, word: &str) {
    j.add_word(word, Some(100), Some("n"));
}

/// Relies on jieba_rs::Jieba::cut without HMM: the ordered token sequence of
/// the text.
#[verifier::external_body]
fn jieba_cut(j: &jieba_rs::Jieba, text: &str) -> (r: Vec<String>) {
    j.cut(text, false).into_iter().map(|t| t.word.to_string()).collect()
}

/// The tokenizer plus the glue that runs a whole inference.
pub struct SemanticInferenceEngine {
    jieba: jieba_rs::Jieba,
}

impl SemanticInferenceEngine {
    /// A fresh engine over the default dictionary.
    pub fn new() -> (r: Self) {
        SemanticInferenceEngine { jieba: jieba_new() }
    }

    /// Injects every business-salient word — labels, aliases, A-Box value
    /// labels — as a high-priority dictionary entry; additive and idempotent
    /// within the process lifetime.
    pub fn refresh_custom_words(&mut self, words: Vec<String>) {
        let mut i: usize = 0;
        while i < words.len()
            decreases words.len() - i,
        {
            jieba_add_word(&mut self.jieba, words[i].as_str());
            i = i + 1;
        }
    }

    /// The ordered token sequence of a query.
    pub fn segment(&self, text: &str) -> Vec<String> {
        jieba_cut(&self.jieba, text)
    }

    /// The whole inference: trim the query, pre-extract a date, segment,
    /// then run the verified decision pipeline on whatever tokens the
    /// segmenter produced. The result is exactly what `infer_spec` says for
    /// that token sequence.
    pub fn infer(
        &self,
        index: &FstEngine,
        abox: &Vec<DimensionValue>,
        edges: &Vec<MetricDimensionEdge>,
        options: &InferenceOptions,
        query: &str,
    ) -> (r: Result<InferenceResult, InferenceError>)
        ensures
            exists|toks: Seq<Seq<char>>|
                infer_result_view(r) == infer_spec(
                    index.node_cache.deep_view(),
                    toks,
                    abox.deep_view(),
                    edges.deep_view(),
                    date_capture_of(trim_spec(query@)),
                    *options,
                ),
            (forall|j: int|
                0 <= j < index.node_cache.deep_view().len()
                    ==> (#[trigger] index.node_cache.deep_view()[j]).node_role
                    != NodeRole::Metric) ==> r is Err && r->Err_0 is NoMetricAnchor,
    {
        let trimmed = trim_str(query);
        let date = capture_date(trimmed);
        proof {
            assert(date.deep_view() == date_capture_of(trim_spec(query@)));
        }
        let tokens = self.segment(trimmed);
        let r = infer_tokens(&index.node_cache, &tokens, abox, edges, &date, options);
        proof {
            assert(infer_result_view(r) == infer_spec(
                index.node_cache.deep_view(),
                tokens.deep_view(),
                abox.deep_view(),
                edges.deep_view(),
                date_capture_of(trim_spec(query@)),
                *options,
            ));
            let nodes = index.node_cache.deep_view();
            if forall|j: int|
                0 <= j < nodes.len() ==> (#[trigger] nodes[j]).node_role != NodeRole::Metric {
                assert(forall|i: int, j: int|
                    0 <= i < tokens.deep_view().len() && 0 <= j < nodes.len()
                        ==> !crate::inference::is_metric_match(nodes[j], tokens.deep_view()[i]));
                crate::inference::lemma_no_metric_token_fails(
                    nodes,
                    tokens.deep_view(),
                    abox.deep_view(),
                    edges.deep_view(),
                    date_capture_of(trim_spec(query@)),
                    *options,
                );
            }
        }
        r
    }
}

} // verus!
