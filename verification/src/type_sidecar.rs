//! What is asked of the type extraction process, and what it answers.

use vstd::prelude::*;

use crate::cloud_storage::{InferKind, ManifestTypeKind};

verus! {

/// A request for a named type.
#[derive(Debug)]
pub struct SymbolRequest {
    pub symbol_name: String,
    pub source_file: String,
    pub alias: Option<String>,
    pub array_depth: Option<u32>,
}

/// A request for the type of an expression.
#[derive(Debug)]
pub struct InferRequestItem {
    pub file_path: String,
    pub line_number: u32,
    pub span_start: Option<u32>,
    pub span_end: Option<u32>,
    pub expression_text: Option<String>,
    pub expression_line: Option<u32>,
    pub infer_kind: InferKind,
    pub param_name: Option<String>,
    pub alias: Option<String>,
}

/// A literal type given for an alias.
#[derive(Debug)]
pub struct InlineAlias {
    pub alias: String,
    pub type_text: String,
}

/// Where a capture anchor comes from.
#[derive(Clone, Copy, PartialEq, Eq, Structural, Debug)]
pub enum AnchorOrigin {
    LlmSymbol,
    DeterministicInfer,
}

/// What is captured for one alias.
#[derive(Debug)]
pub enum CaptureAnchor {
    Symbol {
        alias: String,
        symbol_name: String,
        source_file: String,
        anchor_origin: AnchorOrigin,
        array_depth: Option<u32>,
    },
    Infer {
        alias: String,
        source_file: String,
        anchor_origin: AnchorOrigin,
        span_start: Option<u32>,
        span_end: Option<u32>,
        line_number: Option<u32>,
        expression_text: Option<String>,
    },
    Literal { alias: String, type_text: String, anchor_origin: AnchorOrigin },
}

/// The model of a [`CaptureAnchor`].
pub enum AnchorModel {
    Symbol {
        alias: Seq<char>,
        symbol_name: Seq<char>,
        source_file: Seq<char>,
        anchor_origin: AnchorOrigin,
        array_depth: Option<u32>,
    },
    Infer {
        alias: Seq<char>,
        source_file: Seq<char>,
        anchor_origin: AnchorOrigin,
        span_start: Option<u32>,
        span_end: Option<u32>,
        line_number: Option<u32>,
        expression_text: Option<Seq<char>>,
    },
    Literal { alias: Seq<char>, type_text: Seq<char>, anchor_origin: AnchorOrigin },
}

impl DeepView for CaptureAnchor {
    type V = AnchorModel;

    open spec fn deep_view(&self) -> AnchorModel {
        match *self {
            CaptureAnchor::Symbol {
                alias,
                symbol_name,
                source_file,
                anchor_origin,
                array_depth,
            } => AnchorModel::Symbol {
                alias: alias@,
                symbol_name: symbol_name@,
                source_file: source_file@,
                anchor_origin,
                array_depth,
            },
            CaptureAnchor::Infer {
                alias,
                source_file,
                anchor_origin,
                span_start,
                span_end,
                line_number,
                expression_text,
            } => AnchorModel::Infer {
                alias: alias@,
                source_file: source_file@,
                anchor_origin,
                span_start,
                span_end,
                line_number,
                expression_text: expression_text.deep_view(),
            },
            CaptureAnchor::Literal { alias, type_text, anchor_origin } => AnchorModel::Literal {
                alias: alias@,
                type_text: type_text@,
                anchor_origin,
            },
        }
    }
}

/// The alias that an anchor is captured under.
pub open spec fn anchor_alias(anchor: AnchorModel) -> Seq<char> {
    match anchor {
        AnchorModel::Symbol { alias, .. } => alias,
        AnchorModel::Infer { alias, .. } => alias,
        AnchorModel::Literal { alias, .. } => alias,
    }
}

impl CaptureAnchor {
    /// The alias that the anchor is captured under.
    pub fn alias(&self) -> (r: &String)
        ensures
            r@ == anchor_alias(self.deep_view()),
    {
        match self {
            CaptureAnchor::Symbol { alias, .. } => alias,
            CaptureAnchor::Infer { alias, .. } => alias,
            CaptureAnchor::Literal { alias, .. } => alias,
        }
    }
}

/// The protocol of a probed pair.
#[derive(Clone, Copy, PartialEq, Eq, Structural, Debug)]
pub enum ProbeProtocol {
    Http,
    Graphql,
    Socket,
    Pubsub,
}

/// What a probe compares.
#[derive(Clone, Copy, PartialEq, Eq, Structural, Debug)]
pub enum ProbeTypeKind {
    Request,
    Response,
    Both,
}

/// The four outcomes of a check.
#[derive(Clone, Copy, PartialEq, Eq, Structural, Debug)]
pub enum VerdictBucket {
    Compatible,
    Incompatible,
    Unverifiable,
    Inconclusive,
}

/// One side of a probed pair.
#[derive(Debug)]
pub struct CheckPairEndpoint {
    pub service_name: String,
    pub alias: String,
}

/// A pair to be probed.
#[derive(Debug)]
pub struct CheckPairSpec {
    pub pair_key: String,
    pub protocol: ProbeProtocol,
    pub type_kind: ProbeTypeKind,
    pub producer: CheckPairEndpoint,
    pub consumer: CheckPairEndpoint,
}

impl Clone for CheckPairSpec {
    fn clone(&self) -> (r: Self)
        ensures
            r == *self,
    {
        CheckPairSpec {
            pair_key: self.pair_key.clone(),
            protocol: self.protocol,
            type_kind: self.type_kind,
            producer: CheckPairEndpoint {
                service_name: self.producer.service_name.clone(),
                alias: self.producer.alias.clone(),
            },
            consumer: CheckPairEndpoint {
                service_name: self.consumer.service_name.clone(),
                alias: self.consumer.alias.clone(),
            },
        }
    }
}

/// What the check says of one pair.
#[derive(Debug)]
pub struct CheckVerdict {
    pub pair_key: String,
    pub bucket: VerdictBucket,
    pub gate: Option<String>,
    pub diagnostic: Option<String>,
}

/// The answer to a check: a verdict list, or why it did not run.
#[derive(Debug)]
pub enum CheckReply {
    Verdicts(Vec<CheckVerdict>),
    Failed(String),
}

/// The verdict on one pair, with what it is joined by.
#[derive(Debug)]
pub struct PairCheckOutcome {
    pub pair_key: String,
    pub pseudo_method: String,
    pub identity: String,
    pub consumer_file: String,
    pub consumer_line: u32,
    pub type_kind: ManifestTypeKind,
    pub bucket: VerdictBucket,
    pub gate: Option<String>,
    pub diagnostic: Option<String>,
    pub producer_alias: String,
    pub consumer_alias: String,
    pub producer_service: String,
    pub consumer_service: String,
}

/// A resolved explicit type.
#[derive(Debug)]
pub struct ExplicitType {
    pub alias: String,
    pub type_string: String,
}

/// An inferred type.
#[derive(Debug)]
pub struct InferredType {
    pub alias: String,
    pub type_string: String,
    pub is_explicit: bool,
    pub primary_type_symbol: Option<String>,
}

/// What type resolution yields for a service.
#[derive(Debug)]
pub struct TypeResolutionResult {
    pub dts_content: Option<String>,
    pub explicit_manifest: Vec<ExplicitType>,
    pub inferred_types: Vec<InferredType>,
}

/// A definition printed by the compiler for an alias.
#[derive(Debug)]
pub struct ResolvedDefinition {
    pub type_alias: String,
    pub definition: String,
    pub expanded: String,
}

} // verus!
