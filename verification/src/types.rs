//! Requests, responses and results as plain values.
//!
//! 32-bit floating-point settings (`min_p`, acceptance rates, log probabilities) are carried as
//! their bit patterns: nothing here computes with them.
use std::sync::Arc;
use vstd::prelude::*;

use llguidance::Constraint;

verus! {

/// A request id given out by an engine.
pub type ReqId = u64;

/// A request id chosen by the client side; it stays the same over all rounds of a request.
pub type ClientReqId = u64;

pub type TokenId = u32;

/// Why an engine ended a sequence.
#[derive(Clone, Copy, PartialEq, Eq, Structural, Debug)]
pub enum EngineFinishReason {
    EosToken,
    StopWords,
    Length,
    Unknown,
}

/// Why a completion ended, in the terms of the completion API.
#[derive(Clone, Copy, PartialEq, Eq, Structural, Debug)]
pub enum FinishReason {
    Stop,
    Length,
}

/// Only running into the length limit is reported as `Length`.
pub fn map_finish_reason(fr: EngineFinishReason) -> (res: FinishReason)
    ensures
        res == (if fr == EngineFinishReason::Length {
            FinishReason::Length
        } else {
            FinishReason::Stop
        }),
{
    match fr {
        EngineFinishReason::EosToken | EngineFinishReason::StopWords => FinishReason::Stop,
        EngineFinishReason::Length => FinishReason::Length,
        _ => FinishReason::Stop,
    }
}

/// The view of an optional value through the view of the value.
pub open spec fn opt_view<T: View>(opt: Option<T>) -> Option<T::V> {
    match opt {
        Some(x) => Some(x@),
        None => None,
    }
}

/// A map of values through the views of the values.
pub open spec fn map_view<T: View>(m: Map<u64, T>) -> Map<u64, T::V> {
    m.map_values(|x: T| x@)
}

/// A sequence of values through the views of the values.
pub open spec fn seq_view<T: View>(s: Seq<T>) -> Seq<T::V> {
    s.map_values(|x: T| x@)
}

pub(crate) proof fn lemma_map_view_insert<T: View>(m: Map<u64, T>, k: u64, x: T)
    ensures
        map_view(m.insert(k, x)) == map_view(m).insert(k, x@),
{
    assert(map_view(m.insert(k, x)) =~= map_view(m).insert(k, x@));
}

pub(crate) proof fn lemma_map_view_remove<T: View>(m: Map<u64, T>, k: u64)
    ensures
        map_view(m.remove(k)) == map_view(m).remove(k),
{
    assert(map_view(m.remove(k)) =~= map_view(m).remove(k));
}

/// Copies a list of plain words.
pub(crate) fn copy_words(words: &Vec<u32>) -> (res: Vec<u32>)
    ensures
        res@ == words@,
{
    let res = words.clone();
    assert(res@ =~= words@);
    res
}

/// `Arc::clone`: another handle on the same value.
#[verifier::external_body]
fn share<S>(value: &Arc<S>) -> (res: Arc<S>)
    ensures
        res == *value,
{
    Arc::clone(value)
}

/// A tensor as its dimensions and raw bytes.
#[derive(Debug)]
pub struct Tensor {
    pub dims: Vec<u64>,
    pub data: Vec<u8>,
}

pub struct TensorView {
    pub dims: Seq<u64>,
    pub data: Seq<u8>,
}

impl View for Tensor {
    type V = TensorView;

    open spec fn view(&self) -> TensorView {
        TensorView { dims: self.dims@, data: self.data@ }
    }
}

impl Clone for Tensor {
    fn clone(&self) -> (res: Self)
        ensures
            res@ == self@,
    {
        let res = Tensor { dims: self.dims.clone(), data: self.data.clone() };
        assert(res.dims@ =~= self.dims@);
        assert(res.data@ =~= self.data@);
        res
    }
}

/// Tokens proposed by the draft model, for the target model to check.
#[derive(Debug)]
pub struct DraftParams {
    pub draft_tokens: Vec<TokenId>,
    pub logits_tensor: Option<Tensor>,
    /// Bit pattern of the acceptance rate.
    pub acc_rate: Option<u32>,
}

pub struct DraftParamsView {
    pub draft_tokens: Seq<TokenId>,
    pub logits_tensor: Option<TensorView>,
    pub acc_rate: Option<u32>,
}

impl View for DraftParams {
    type V = DraftParamsView;

    open spec fn view(&self) -> DraftParamsView {
        DraftParamsView {
            draft_tokens: self.draft_tokens@,
            logits_tensor: opt_view(self.logits_tensor),
            acc_rate: self.acc_rate,
        }
    }
}

impl Clone for DraftParams {
    fn clone(&self) -> (res: Self)
        ensures
            res@ == self@,
    {
        DraftParams {
            draft_tokens: copy_words(&self.draft_tokens),
            logits_tensor: match &self.logits_tensor {
                Some(tensor) => Some(tensor.clone()),
                None => None,
            },
            acc_rate: self.acc_rate,
        }
    }
}

/// The sampling parameters that the request bookkeeping reads or sets.
#[derive(Clone, Copy, PartialEq, Eq, Structural, Debug)]
pub struct RequestParams {
    pub max_new_tokens: u32,
    pub min_tokens: u32,
    pub num_return_sequences: u32,
    pub streaming: bool,
    /// Bit pattern of the min-p threshold.
    pub min_p: u32,
}

/// A request as it is handed to an engine.
///
/// `settings` holds everything else that the engine wants to know; it is passed on unread.
#[derive(Debug)]
pub struct RequestInit<S> {
    pub tokens: Vec<TokenId>,
    pub params: RequestParams,
    pub client_req_id: ClientReqId,
    pub is_run: bool,
    pub draft_params: Option<DraftParams>,
    pub settings: Arc<S>,
}

pub struct RequestInitView<S> {
    pub tokens: Seq<TokenId>,
    pub params: RequestParams,
    pub client_req_id: ClientReqId,
    pub is_run: bool,
    pub draft_params: Option<DraftParamsView>,
    pub settings: Arc<S>,
}

impl<S> View for RequestInit<S> {
    type V = RequestInitView<S>;

    open spec fn view(&self) -> RequestInitView<S> {
        RequestInitView {
            tokens: self.tokens@,
            params: self.params,
            client_req_id: self.client_req_id,
            is_run: self.is_run,
            draft_params: opt_view(self.draft_params),
            settings: self.settings,
        }
    }
}

impl<S> Clone for RequestInit<S> {
    fn clone(&self) -> (res: Self)
        ensures
            res@ == self@,
    {
        RequestInit {
            tokens: copy_words(&self.tokens),
            params: self.params,
            client_req_id: self.client_req_id,
            is_run: self.is_run,
            draft_params: match &self.draft_params {
                Some(params) => Some(params.clone()),
                None => None,
            },
            settings: share(&self.settings),
        }
    }
}

/// A piece of output of one sequence of a request.
#[derive(Clone, Debug)]
pub struct ResponseChunk {
    pub req_id: ReqId,
    pub sequence_idx: u32,
    pub finish_reason: Option<EngineFinishReason>,
    pub error: Option<String>,
    pub is_req_final: bool,
    /// Bit patterns of the log probabilities of `tokens`.
    pub logprobs: Option<Vec<u32>>,
    pub tokens: Vec<TokenId>,
    pub generation_logits: Option<Tensor>,
}

pub struct ResponseChunkView {
    pub req_id: ReqId,
    pub sequence_idx: u32,
    pub finish_reason: Option<EngineFinishReason>,
    pub error: Option<Seq<char>>,
    pub is_req_final: bool,
    pub logprobs: Option<Seq<u32>>,
    pub tokens: Seq<TokenId>,
    pub generation_logits: Option<TensorView>,
}

impl View for ResponseChunk {
    type V = ResponseChunkView;

    open spec fn view(&self) -> ResponseChunkView {
        ResponseChunkView {
            req_id: self.req_id,
            sequence_idx: self.sequence_idx,
            finish_reason: self.finish_reason,
            error: opt_view(self.error),
            is_req_final: self.is_req_final,
            logprobs: opt_view(self.logprobs),
            tokens: self.tokens@,
            generation_logits: opt_view(self.generation_logits),
        }
    }
}

/// What is sent to the receiver of a request for each piece of output.
#[derive(Clone)]
pub struct StepResults {
    pub response: ResponseChunk,
    pub logs: String,
    pub final_llg: Option<Box<Constraint>>,
}

pub struct StepResultsView {
    pub response: ResponseChunkView,
    pub logs: Seq<char>,
    pub final_llg: Option<Box<Constraint>>,
}

impl View for StepResults {
    type V = StepResultsView;

    open spec fn view(&self) -> StepResultsView {
        StepResultsView {
            response: self.response@,
            logs: self.logs@,
            final_llg: self.final_llg,
        }
    }
}

/// Moves the text out of a string.
pub(crate) fn take_text(text: &mut String) -> (res: String)
    ensures
        res@ == old(text)@,
        final(text)@ == Seq::<char>::empty(),
{
    let mut res = String::new();
    std::mem::swap(&mut res, text);
    res
}

impl StepResults {
    /// Takes the logs out, if there are any.
    pub fn take_logs(&mut self) -> (res: Option<String>)
        ensures
            opt_view(res) == (if old(self)@.logs.len() == 0 {
                None
            } else {
                Some(old(self)@.logs)
            }),
            final(self)@ == (StepResultsView { logs: Seq::empty(), ..old(self)@ }),
    {
        if self.logs.as_str().is_empty() {
            assert(self@.logs =~= Seq::<char>::empty());
            return None;
        }
        Some(take_text(&mut self.logs))
    }
}

} // verus!
