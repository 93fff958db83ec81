//! Shared error surface for render graph topology, execution, and frame resources.
use vstd::prelude::*;
use vstd::string::StringExecFns;

verus! {

/// Errors produced by frame resource operations.
#[derive(Debug, Clone, PartialEq, Eq)]
pub enum FrameResourceError {
    Unsupported { operation: &'static str },
    InvalidOperation { operation: &'static str, reason: &'static str },
    InvalidState { reason: &'static str },
}

/// Result type used by frame resource code.
pub type FrameResourceResult<T> = Result<T, FrameResourceError>;

/// Errors produced by graph-core operations.
#[derive(Debug, Clone, PartialEq, Eq)]
pub enum RenderGraphError {
    /// A graph operation is represented in the API but not implemented yet.
    Unsupported { operation: &'static str },
    /// A typed graph id was invalid for the requested operation.
    InvalidId { kind: &'static str, raw: u32 },
    /// The graph already contains the requested dependency edge.
    DuplicateDependency { dependency_kind: &'static str, parent: u32, child: u32 },
    /// A node cannot depend on itself.
    SelfDependency { dependency_kind: &'static str, node: u32 },
    /// The graph was built/frozen, so topology mutation is no longer legal.
    GraphAlreadyBuilt { operation: &'static str },
    /// A CPU or GPU dependency cycle was found while building executable order.
    CycleDetected { dependency_kind: &'static str, remaining_nodes: usize },
    /// Imported graph topology or special-node merge rules were invalid.
    InvalidMerge { reason: &'static str },
    /// Command-list group authoring was used in an invalid order or scope.
    InvalidCommandListGroupUsage { operation: &'static str, reason: &'static str },
    /// Frame command recording was used in an invalid order or scope.
    InvalidCommandRecorderUsage { operation: &'static str, reason: &'static str },
    /// A frame-resource request made through node processing failed.
    FrameResource(FrameResourceError),
    /// A graph operation was called in the wrong execution/build phase.
    InvalidExecutionPhase { operation: &'static str, phase: &'static str, expected: &'static str },
    /// A graph invariant failed that is not tied to a narrower error variant.
    InvalidState { reason: &'static str },
}

/// Result type used by render graph topology, factory, cache, and execution code.
pub type RenderGraphResult<T> = Result<T, RenderGraphError>;

impl From<FrameResourceError> for RenderGraphError {
    fn from(error: FrameResourceError) -> (r: Self) {
        RenderGraphError::FrameResource(error)
    }
}

impl vstd::std_specs::convert::FromSpecImpl<FrameResourceError> for RenderGraphError {
    open spec fn obeys_from_spec() -> bool {
        true
    }

    open spec fn from_spec(v: FrameResourceError) -> Self {
        RenderGraphError::FrameResource(v)
    }
}

/// The decimal digit `d` as a character.
pub open spec fn digit_char(d: nat) -> char {
    if d == 0 { '0' }
    else if d == 1 { '1' }
    else if d == 2 { '2' }
    else if d == 3 { '3' }
    else if d == 4 { '4' }
    else if d == 5 { '5' }
    else if d == 6 { '6' }
    else if d == 7 { '7' }
    else if d == 8 { '8' }
    else { '9' }
}

/// The decimal representation of `n`, without leading zeros.
pub open spec fn decimal(n: nat) -> Seq<char>
    decreases n,
{
    if n < 10 {
        seq![digit_char(n)]
    } else {
        decimal(n / 10).push(digit_char(n % 10))
    }
}

/// Appends `piece` to `s`.
fn push_str(s: &mut String, piece: &str)
    ensures
        final(s)@ == old(s)@ + piece@,
{
    s.append(piece);
}

/// Appends `c` to `s` (`String::push`).
#[verifier::external_body]
fn push_char(s: &mut String, c: char)
    ensures
        final(s)@ == old(s)@.push(c),
{
    s.push(c);
}

/// The character of a decimal digit.
fn digit(d: u64) -> (r: char)
    requires
        d < 10,
    ensures
        r == digit_char(d as nat),
{
    match d {
        0 => '0',
        1 => '1',
        2 => '2',
        3 => '3',
        4 => '4',
        5 => '5',
        6 => '6',
        7 => '7',
        8 => '8',
        _ => '9',
    }
}

/// Appends the decimal representation of `n` to `s`.
fn push_decimal(s: &mut String, n: u64)
    ensures
        final(s)@ == old(s)@ + decimal(n as nat),
    decreases n,
{
    if n < 10 {
        push_char(s, digit(n));
        proof {
            assert(old(s)@.push(digit_char(n as nat)) =~= old(s)@ + seq![digit_char(n as nat)]);
        }
    } else {
        push_decimal(s, n / 10);
        push_char(s, digit(n % 10));
        proof {
            assert(old(s)@ + decimal((n / 10) as nat) + seq![digit_char((n % 10) as nat)] =~= old(s)@ + decimal(
                (n / 10) as nat,
            ).push(digit_char((n % 10) as nat)));
            assert((old(s)@ + decimal((n / 10) as nat)).push(digit_char((n % 10) as nat)) =~= old(s)@ + decimal(
                (n / 10) as nat,
            ).push(digit_char((n % 10) as nat)));
        }
    }
}

impl FrameResourceError {
    /// The human-readable description of the error.
    pub open spec fn spec_message(self) -> Seq<char> {
        match self {
            FrameResourceError::Unsupported { operation } => "frame resource operation is not supported yet: "@
                + operation@,
            FrameResourceError::InvalidOperation { operation, reason } => "invalid frame resource operation `"@
                + operation@ + "`: "@ + reason@,
            FrameResourceError::InvalidState { reason } => "invalid frame resource allocator state: "@ + reason@,
        }
    }

    /// Describes the error.
    pub fn message(&self) -> (r: String)
        ensures
            r@ == self.spec_message(),
    {
        let mut s = String::new();
        match self {
            FrameResourceError::Unsupported { operation } => {
                push_str(&mut s, "frame resource operation is not supported yet: ");
                push_str(&mut s, operation);
            },
            FrameResourceError::InvalidOperation { operation, reason } => {
                push_str(&mut s, "invalid frame resource operation `");
                push_str(&mut s, operation);
                push_str(&mut s, "`: ");
                push_str(&mut s, reason);
            },
            FrameResourceError::InvalidState { reason } => {
                push_str(&mut s, "invalid frame resource allocator state: ");
                push_str(&mut s, reason);
            },
        }
        proof {
            assert(Seq::<char>::empty() + self.spec_message() =~= self.spec_message());
        }
        s
    }
}

impl RenderGraphError {
    /// The human-readable description of the error.
    pub open spec fn spec_message(self) -> Seq<char> {
        match self {
            RenderGraphError::Unsupported { operation } => "render graph operation is not supported yet: "@
                + operation@,
            RenderGraphError::InvalidId { kind, raw } => "invalid render graph "@ + kind@ + " id: "@ + decimal(
                raw as nat,
            ),
            RenderGraphError::DuplicateDependency { dependency_kind, parent, child } => "duplicate "@
                + dependency_kind@ + " dependency from node "@ + decimal(parent as nat) + " to node "@ + decimal(
                child as nat,
            ),
            RenderGraphError::SelfDependency { dependency_kind, node } => "invalid "@ + dependency_kind@
                + " dependency: node "@ + decimal(node as nat) + " cannot depend on itself"@,
            RenderGraphError::GraphAlreadyBuilt { operation } => "render graph operation `"@ + operation@
                + "` cannot mutate a built graph"@,
            RenderGraphError::CycleDetected { dependency_kind, remaining_nodes } => dependency_kind@
                + " dependency cycle detected with "@ + decimal(remaining_nodes as nat) + " unresolved nodes"@,
            RenderGraphError::InvalidMerge { reason } => "invalid render graph merge: "@ + reason@,
            RenderGraphError::InvalidCommandListGroupUsage { operation, reason } =>
                "invalid command-list group operation `"@ + operation@ + "`: "@ + reason@,
            RenderGraphError::InvalidCommandRecorderUsage { operation, reason } =>
                "invalid frame command recorder operation `"@ + operation@ + "`: "@ + reason@,
            RenderGraphError::FrameResource(error) => "frame resource error during render graph execution: "@
                + error.spec_message(),
            RenderGraphError::InvalidExecutionPhase { operation, phase, expected } =>
                "invalid render graph phase for `"@ + operation@ + "`: current phase is "@ + phase@
                + ", expected "@ + expected@,
            RenderGraphError::InvalidState { reason } => "invalid render graph state: "@ + reason@,
        }
    }

    /// Describes the error.
    pub fn message(&self) -> (r: String)
        ensures
            r@ == self.spec_message(),
    {
        let mut s = String::new();
        match self {
            RenderGraphError::Unsupported { operation } => {
                push_str(&mut s, "render graph operation is not supported yet: ");
                push_str(&mut s, operation);
            },
            RenderGraphError::InvalidId { kind, raw } => {
                push_str(&mut s, "invalid render graph ");
                push_str(&mut s, kind);
                push_str(&mut s, " id: ");
                push_decimal(&mut s, *raw as u64);
            },
            RenderGraphError::DuplicateDependency { dependency_kind, parent, child } => {
                push_str(&mut s, "duplicate ");
                push_str(&mut s, dependency_kind);
                push_str(&mut s, " dependency from node ");
                push_decimal(&mut s, *parent as u64);
                push_str(&mut s, " to node ");
                push_decimal(&mut s, *child as u64);
            },
            RenderGraphError::SelfDependency { dependency_kind, node } => {
                push_str(&mut s, "invalid ");
                push_str(&mut s, dependency_kind);
                push_str(&mut s, " dependency: node ");
                push_decimal(&mut s, *node as u64);
                push_str(&mut s, " cannot depend on itself");
            },
            RenderGraphError::GraphAlreadyBuilt { operation } => {
                push_str(&mut s, "render graph operation `");
                push_str(&mut s, operation);
                push_str(&mut s, "` cannot mutate a built graph");
            },
            RenderGraphError::CycleDetected { dependency_kind, remaining_nodes } => {
                push_str(&mut s, dependency_kind);
                push_str(&mut s, " dependency cycle detected with ");
                push_decimal(&mut s, *remaining_nodes as u64);
                push_str(&mut s, " unresolved nodes");
            },
            RenderGraphError::InvalidMerge { reason } => {
                push_str(&mut s, "invalid render graph merge: ");
                push_str(&mut s, reason);
            },
            RenderGraphError::InvalidCommandListGroupUsage { operation, reason } => {
                push_str(&mut s, "invalid command-list group operation `");
                push_str(&mut s, operation);
                push_str(&mut s, "`: ");
                push_str(&mut s, reason);
            },
            RenderGraphError::InvalidCommandRecorderUsage { operation, reason } => {
                push_str(&mut s, "invalid frame command recorder operation `");
                push_str(&mut s, operation);
                push_str(&mut s, "`: ");
                push_str(&mut s, reason);
            },
            RenderGraphError::FrameResource(error) => {
                push_str(&mut s, "frame resource error during render graph execution: ");
                let inner = error.message();
                push_str(&mut s, inner.as_str());
            },
            RenderGraphError::InvalidExecutionPhase { operation, phase, expected } => {
                push_str(&mut s, "invalid render graph phase for `");
                push_str(&mut s, operation);
                push_str(&mut s, "`: current phase is ");
                push_str(&mut s, phase);
                push_str(&mut s, ", expected ");
                push_str(&mut s, expected);
            },
            RenderGraphError::InvalidState { reason } => {
                push_str(&mut s, "invalid render graph state: ");
                push_str(&mut s, reason);
            },
        }
        proof {
            assert(Seq::<char>::empty() + self.spec_message() =~= self.spec_message());
        }
        s
    }
}

} // verus!
