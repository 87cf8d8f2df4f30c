//! Telling a missing privilege from other failures to attach.

use vstd::prelude::*;

verus! {

pub const PRIVILEGE_HINT: &'static str = "truetop loads eBPF, which needs privilege: run it as root (sudo truetop), or grant the binary CAP_BPF and CAP_PERFMON";

/// The kinds of an I/O failure that are told apart.
#[derive(Clone, Copy, Debug, PartialEq, Eq, Structural)]
pub enum IoKind {
    PermissionDenied,
    Other,
}

// ── anyhow ───────────────────────────────────────────────────────────────────

/// `anyhow::Error`, carried through as it is.
#[verifier::external_type_specification]
#[verifier::external_body]
pub struct ExError(anyhow::Error);

/// The links an error's chain holds, outermost first: of each its message, and its
/// kind where it is an I/O failure.
pub uninterp spec fn causes(err: anyhow::Error) -> Seq<(Seq<char>, Option<IoKind>)>;

/// What kind of I/O failure each link is, where it is one.
pub open spec fn kinds(chain: Seq<(Seq<char>, Option<IoKind>)>) -> Seq<Option<IoKind>> {
    chain.map_values(|link: (Seq<char>, Option<IoKind>)| link.1)
}

/// `anyhow::Error::chain` visits every link of the chain, outermost first; of each the
/// kind is handed out where it is a `std::io::Error`. No link is asked for its message.
#[verifier::external_body]
fn read_kinds(err: &anyhow::Error) -> (out: Vec<Option<IoKind>>)
    ensures
        out@ == kinds(causes(*err)),
{
    err.chain().map(|link| link.downcast_ref::<std::io::Error>().map(|io| match io.kind() {
        std::io::ErrorKind::PermissionDenied => IoKind::PermissionDenied,
        _ => IoKind::Other,
    })).collect()
}

/// `anyhow::Error::context` puts one link in front of the chain, whose message is
/// the context and which is no I/O failure itself, and leaves the rest as it was.
#[verifier::external_body]
fn with_context(err: anyhow::Error, context: &'static str) -> (out: anyhow::Error)
    ensures
        causes(out) == seq![(context@, None::<IoKind>)] + causes(err),
{
    err.context(context)
}

// ── The hint ─────────────────────────────────────────────────────────────────

/// Some link of a chain is a permission failure.
pub open spec fn denied(kinds: Seq<Option<IoKind>>) -> bool {
    kinds.contains(Some(IoKind::PermissionDenied))
}

/// The privilege hint when a link of a chain is a permission failure.
pub fn hint_for(kinds: &Vec<Option<IoKind>>) -> (out: Option<&'static str>)
    ensures
        out is Some == denied(kinds@),
        out matches Some(hint) ==> hint@ == PRIVILEGE_HINT@,
{
    for i in 0..kinds.len()
        invariant
            forall|j: int| 0 <= j < i ==> kinds@[j] != Some(IoKind::PermissionDenied),
    {
        if let Some(kind) = kinds[i] {
            if kind == IoKind::PermissionDenied {
                assert(kinds@[i as int] == Some(IoKind::PermissionDenied));
                return Some(PRIVILEGE_HINT);
            }
        }
    }
    None
}

/// The privilege hint when the failure is a permission error anywhere in the
/// chain (aya surfaces the load EPERM as an `io::Error` source), else `None`.
pub fn privilege_hint(err: &anyhow::Error) -> (out: Option<&'static str>)
    ensures
        out is Some == denied(kinds(causes(*err))),
        out matches Some(hint) ==> hint@ == PRIVILEGE_HINT@,
{
    hint_for(&read_kinds(err))
}

/// A chain with the hint in front of it, where it calls for it.
pub open spec fn diagnosed(chain: Seq<(Seq<char>, Option<IoKind>)>) -> Seq<
    (Seq<char>, Option<IoKind>),
> {
    if denied(kinds(chain)) {
        seq![(PRIVILEGE_HINT@, None::<IoKind>)] + chain
    } else {
        chain
    }
}

/// Prepend an actionable hint to an attach failure the user is likely to hit;
/// anything unrecognised keeps its own error chain untouched.
pub fn diagnose(err: anyhow::Error) -> (out: anyhow::Error)
    ensures
        causes(out) == if denied(kinds(causes(err))) {
            seq![(PRIVILEGE_HINT@, None::<IoKind>)] + causes(err)
        } else {
            causes(err)
        },
        causes(out) == diagnosed(causes(err)),
{
    match privilege_hint(&err) {
        Some(hint) => with_context(err, hint),
        None => err,
    }
}

// ── Laws ─────────────────────────────────────────────────────────────────────

/// A permission failure is found however deep it lies: more links in front of a
/// chain, or behind it, hide nothing.
pub proof fn denial_is_found_at_any_depth(
    outer: Seq<(Seq<char>, Option<IoKind>)>,
    inner: Seq<(Seq<char>, Option<IoKind>)>,
)
    ensures
        denied(kinds(outer + inner)) == (denied(kinds(outer)) || denied(kinds(inner))),
{
    let (all, front, back) = (kinds(outer + inner), kinds(outer), kinds(inner));
    assert(all == front + back);
    let wanted = Some(IoKind::PermissionDenied);
    if denied(front) {
        let i = choose|i: int| 0 <= i < front.len() && front[i] == wanted;
        assert(all[i] == wanted);
    }
    if denied(back) {
        let i = choose|i: int| 0 <= i < back.len() && back[i] == wanted;
        assert(all[front.len() + i] == wanted);
    }
    if denied(all) {
        let i = choose|i: int| 0 <= i < all.len() && all[i] == wanted;
        if i < front.len() {
            assert(front[i] == wanted);
        } else {
            assert(back[i - front.len()] == wanted);
        }
    }
}

/// What is put in front of a chain as context is no permission failure: whether one is
/// found does not change with it.
pub proof fn context_changes_no_diagnosis(
    context: Seq<char>,
    chain: Seq<(Seq<char>, Option<IoKind>)>,
)
    ensures
        denied(kinds(seq![(context, None::<IoKind>)] + chain)) == denied(kinds(chain)),
{
    let front = seq![(context, None::<IoKind>)];
    denial_is_found_at_any_depth(front, chain);
    if denied(kinds(front)) {
        let i = choose|i: int|
            0 <= i < kinds(front).len() && kinds(front)[i] == Some(IoKind::PermissionDenied);
        assert(kinds(front)[i] == front[i].1);
    }
}

/// A chain with a permission failure anywhere in it gets one link more, in front, and it
/// is the hint; any other is left alone. No link is ever lost or changed.
pub proof fn a_diagnosis_loses_no_link(chain: Seq<(Seq<char>, Option<IoKind>)>, i: int)
    requires
        0 <= i < chain.len(),
    ensures
        chain[i].1 == Some(IoKind::PermissionDenied) ==> diagnosed(chain).len() == chain.len() + 1
            && diagnosed(chain)[0].0 == PRIVILEGE_HINT@,
        (forall|k: int|
            0 <= k < chain.len() ==> (#[trigger] chain[k]).1 != Some(IoKind::PermissionDenied))
            ==> diagnosed(chain) == chain,
        diagnosed(chain)[diagnosed(chain).len() - chain.len() + i] == chain[i],
{
    let all = kinds(chain);
    if chain[i].1 == Some(IoKind::PermissionDenied) {
        assert(all[i] == Some(IoKind::PermissionDenied));
    }
    if denied(all) {
        let k = choose|k: int| 0 <= k < all.len() && all[k] == Some(IoKind::PermissionDenied);
        assert(chain[k].1 == Some(IoKind::PermissionDenied));
    }
}

} // verus!
