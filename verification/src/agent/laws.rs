//! What a grant and each link behind it must hold for a chain to be followed.

use crate::action::{self, ActionRefusal, RuleView};
use crate::agent::{
    self, AgentGrantView, ChainFactsView, ChainRefusal, CheckedView, DelegationView, EntryView,
};
use crate::bytes;
use crate::error::FormatError;
use crate::tlv::{self, Rec};
use vstd::prelude::*;

verus! {

/// A link that opens under the key of the holder is followed exactly where it names the grant
/// and the holder, goes less deep than the holder may, holds only files of the holder, ends no
/// later than the holder's time and not before now, and, where actions are granted, hands on no
/// rule that is not within one of the holder's.
pub proof fn a_link_is_followed_exactly_where_it_narrows(
    parent: ChainFactsView,
    link: CheckedView,
    d: DelegationView,
    index: usize,
    rooted: bool,
    now: i64,
)
    requires
        agent::opened_link(link.bytes, link.signer == Some(parent.holder_verify), link.policy)
            == Ok::<DelegationView, FormatError>(d),
    ensures
        agent::chain_step(parent, link, index, rooted, now) is Ok <==> {
            &&& d.grant_id == parent.grant_id
            &&& d.parent_fpr == parent.holder_fpr
            &&& d.depth < parent.depth_left
            &&& forall|i: int|
                0 <= i < d.entries.len()
                    ==> parent.files.contains((#[trigger] d.entries[i]).file_id)
            &&& d.expires_at <= parent.expires_at
            &&& now <= d.expires_at
            &&& rooted ==> forall|i: int|
                0 <= i < d.actions.len() ==> exists|j: int|
                    0 <= j < parent.actions.len() && action::wider(
                        #[trigger] d.actions[i],
                        #[trigger] parent.actions[j],
                    ) is None
        },
{
    files_that_are_handed_on(d.entries, parent.files);
    agent::narrow_refusal_is_none_where_every_child_is_covered(parent.actions, d.actions, index);
    assert((forall|i: int|
        0 <= i < d.actions.len() ==> agent::covered(parent.actions, #[trigger] d.actions[i]))
        <==> (forall|i: int|
        0 <= i < d.actions.len() ==> exists|j: int|
            0 <= j < parent.actions.len() && action::wider(
                #[trigger] d.actions[i],
                #[trigger] parent.actions[j],
            ) is None)) by {
        assert forall|i: int| 0 <= i < d.actions.len() implies (agent::covered(
            parent.actions,
            #[trigger] d.actions[i],
        ) <==> exists|j: int|
            0 <= j < parent.actions.len() && action::wider(
                d.actions[i],
                #[trigger] parent.actions[j],
            ) is None) by {}
    }
}

proof fn files_that_are_handed_on(es: Seq<EntryView>, files: Seq<Seq<u8>>)
    ensures
        agent::subset(agent::files_of(es), files) <==> (forall|i: int|
            0 <= i < es.len() ==> files.contains((#[trigger] es[i]).file_id)),
{
    let ids = agent::files_of(es);
    if agent::subset(ids, files) {
        assert forall|i: int| 0 <= i < es.len() implies files.contains(
            (#[trigger] es[i]).file_id,
        ) by {
            assert(files.contains(ids[i]));
        }
    }
}

/// What the child of a link has is what the link says, but that without a grant of actions it
/// has none, and that every tightening of the holder binds it too.
pub proof fn what_a_link_hands_on(
    parent: ChainFactsView,
    link: CheckedView,
    d: DelegationView,
    index: usize,
    rooted: bool,
    now: i64,
)
    requires
        agent::opened_link(link.bytes, link.signer == Some(parent.holder_verify), link.policy)
            == Ok::<DelegationView, FormatError>(d),
        agent::chain_step(parent, link, index, rooted, now) is Ok,
    ensures
        ({
            let child = agent::chain_step(parent, link, index, rooted, now)->Ok_0;
            &&& child.grant_id == d.grant_id
            &&& child.holder_fpr == d.child_fpr
            &&& child.holder_verify == d.child_verify
            &&& child.files.len() == d.entries.len()
            &&& forall|i: int|
                0 <= i < d.entries.len() ==> #[trigger] child.files[i] == d.entries[i].file_id
            &&& child.expires_at == d.expires_at
            &&& child.depth_left == d.depth
            &&& rooted ==> child.actions == d.actions
            &&& !rooted ==> child.actions.len() == 0
            &&& d.tightening is None ==> child.tightening == parent.tightening
            &&& d.tightening is Some ==> child.tightening == parent.tightening + seq![
                d.tightening->0,
            ]
        }),
{
    assert(d.tightening is Some ==> parent.tightening.push(d.tightening->0)
        =~= parent.tightening + seq![d.tightening->0]);
}

/// Each refusal of a link that opens has its one cause, and what stands earlier in the order
/// is refused first: the parent, the depth, the files, the end, the time, the actions.
pub proof fn why_a_link_is_not_followed(
    parent: ChainFactsView,
    link: CheckedView,
    d: DelegationView,
    index: usize,
    rooted: bool,
    now: i64,
)
    requires
        agent::opened_link(link.bytes, link.signer == Some(parent.holder_verify), link.policy)
            == Ok::<DelegationView, FormatError>(d),
    ensures
        ({
            let r = agent::chain_step(parent, link, index, rooted, now);
            let named = d.grant_id == parent.grant_id && d.parent_fpr == parent.holder_fpr;
            let shallow = d.depth < parent.depth_left;
            let held = forall|i: int|
                0 <= i < d.entries.len()
                    ==> parent.files.contains((#[trigger] d.entries[i]).file_id);
            let ends = d.expires_at <= parent.expires_at;
            &&& (r == Err::<ChainFactsView, ChainRefusal>(ChainRefusal::WrongParent { index })
                <==> !named)
            &&& (r == Err::<ChainFactsView, ChainRefusal>(ChainRefusal::DepthExhausted { index })
                <==> named && d.depth >= parent.depth_left)
            &&& (r == Err::<ChainFactsView, ChainRefusal>(ChainRefusal::NotASubset { index })
                <==> named && shallow && !held)
            &&& (r == Err::<ChainFactsView, ChainRefusal>(ChainRefusal::OutlivesParent { index })
                <==> named && shallow && held && d.expires_at > parent.expires_at)
            &&& (r == Err::<ChainFactsView, ChainRefusal>(ChainRefusal::Expired) <==> named
                && shallow && held && ends && now > d.expires_at)
            &&& r != Err::<ChainFactsView, ChainRefusal>(ChainRefusal::BadLink { index })
        }),
{
    files_that_are_handed_on(d.entries, parent.files);
    the_refusal_of_rules_is_of_the_rules(parent.actions, d.actions, index);
}

/// A link that does not open under the key of the holder is a bad link, whoever else signed it.
pub proof fn a_link_that_does_not_open(
    parent: ChainFactsView,
    link: CheckedView,
    index: usize,
    rooted: bool,
    now: i64,
)
    requires
        agent::opened_link(link.bytes, link.signer == Some(parent.holder_verify), link.policy)
            is Err,
    ensures
        agent::chain_step(parent, link, index, rooted, now) == Err::<ChainFactsView, ChainRefusal>(
            ChainRefusal::BadLink { index },
        ),
{
}

/// A link that nobody signed, or another than the holder did, is never followed.
pub proof fn a_link_is_signed_by_the_holder(
    parent: ChainFactsView,
    link: CheckedView,
    index: usize,
    rooted: bool,
    now: i64,
)
    requires
        link.signer != Some(parent.holder_verify),
    ensures
        agent::chain_step(parent, link, index, rooted, now) == Err::<ChainFactsView, ChainRefusal>(
            ChainRefusal::BadLink { index },
        ),
{
}

/// A link that is followed at one time is followed to the same end at every other time at which
/// it has not ended.
pub proof fn a_link_is_followed_until_it_ends(
    parent: ChainFactsView,
    link: CheckedView,
    index: usize,
    rooted: bool,
    now: i64,
    later: i64,
)
    requires
        agent::chain_step(parent, link, index, rooted, now) is Ok,
        later <= agent::chain_step(parent, link, index, rooted, now)->Ok_0.expires_at,
    ensures
        agent::chain_step(parent, link, index, rooted, later) == agent::chain_step(
            parent,
            link,
            index,
            rooted,
            now,
        ),
{
}

/// A refusal of rules is always one of the two that speak of actions, and names the link.
proof fn the_refusal_of_rules_is_of_the_rules(
    parents: Seq<RuleView>,
    children: Seq<RuleView>,
    index: usize,
)
    ensures
        agent::narrow_refusal(parents, children, index) matches Some(e) ==> (e
            == ChainRefusal::ActionNotGranted { index } || exists|why: ActionRefusal| #[trigger]
            widens(index, why) == e),
    decreases children.len(),
{
    if children.len() > 0 {
        the_refusal_of_rules_is_of_the_rules(parents, children.drop_last(), index);
        let child = children.last();
        if agent::narrow_refusal(parents, children.drop_last(), index) is None {
            if let Some(first) = agent::first_of_kind(parents, child.kind) {
                let why = action::wider(child, first)->0;
                assert(widens(index, why) == ChainRefusal::ActionWidens { index, why });
            }
        }
    }
}

spec fn widens(index: usize, why: ActionRefusal) -> ChainRefusal {
    ChainRefusal::ActionWidens { index, why }
}

/// Where rules are refused, it is for the first child that is within no rule of the parent:
/// as not granted, where the parent has no rule of its kind, and else for what the first rule
/// of its kind has against it.
pub proof fn the_first_rule_outside_is_named(
    parents: Seq<RuleView>,
    children: Seq<RuleView>,
    index: usize,
    k: int,
)
    requires
        0 <= k < children.len(),
        forall|i: int|
            0 <= i < k ==> exists|j: int|
                0 <= j < parents.len() && action::wider(
                    #[trigger] children[i],
                    #[trigger] parents[j],
                ) is None,
        forall|j: int|
            0 <= j < parents.len() ==> action::wider(children[k], #[trigger] parents[j]) is Some,
    ensures
        ({
            let e = agent::narrow_refusal(parents, children, index);
            &&& (forall|j: int|
                0 <= j < parents.len() ==> (#[trigger] parents[j]).kind != children[k].kind) ==> e
                == Some(ChainRefusal::ActionNotGranted { index })
            &&& forall|m: int|
                0 <= m < parents.len() && parents[m].kind == children[k].kind && (forall|j: int|
                    0 <= j < m ==> (#[trigger] parents[j]).kind != children[k].kind) ==> e == Some(
                    ChainRefusal::ActionWidens {
                        index,
                        why: action::wider(children[k], #[trigger] parents[m])->0,
                    },
                )
        }),
    decreases children.len(),
{
    let child = children[k];
    let head = children.drop_last();
    if k < children.len() - 1 {
        assert(head[k] == child);
        assert forall|i: int| 0 <= i < k implies exists|j: int|
            0 <= j < parents.len() && action::wider(#[trigger] head[i], #[trigger] parents[j])
                is None by {
            assert(head[i] == children[i]);
        }
        the_first_rule_outside_is_named(parents, head, index, k);
        agent::narrow_refusal_is_none_where_every_child_is_covered(parents, head, index);
        assert(!agent::covered(parents, head[k]));
    } else {
        assert forall|i: int| 0 <= i < head.len() implies agent::covered(
            parents,
            #[trigger] head[i],
        ) by {
            assert(head[i] == children[i]);
            let j = choose|j: int|
                0 <= j < parents.len() && action::wider(children[i], #[trigger] parents[j]) is None;
            assert(action::wider(head[i], parents[j]) is None);
        }
        agent::narrow_refusal_is_none_where_every_child_is_covered(parents, head, index);
        assert(children.last() == child);
        assert(!agent::covered(parents, child));
        first_of_its_kind(parents, child.kind);
    }
}

/// The first rule of a kind is the first.
pub proof fn first_of_its_kind(rules: Seq<RuleView>, kind: action::ActionKind)
    ensures
        (forall|j: int| 0 <= j < rules.len() ==> (#[trigger] rules[j]).kind != kind)
            <==> agent::first_of_kind(rules, kind) is None,
        forall|m: int|
            0 <= m < rules.len() && (#[trigger] rules[m]).kind == kind && (forall|j: int|
                0 <= j < m ==> (#[trigger] rules[j]).kind != kind) ==> agent::first_of_kind(
                rules,
                kind,
            ) == Some(rules[m]),
    decreases rules.len(),
{
    if rules.len() > 0 {
        let head = rules.drop_last();
        first_of_its_kind(head, kind);
        assert forall|j: int| 0 <= j < head.len() implies head[j] == #[trigger] rules[j] by {}
        if agent::first_of_kind(rules, kind) is None {
            assert forall|j: int| 0 <= j < rules.len() implies (#[trigger] rules[j]).kind
                != kind by {
                if j < head.len() {
                    assert(head[j].kind != kind);
                }
            }
        }
        if forall|j: int| 0 <= j < rules.len() ==> (#[trigger] rules[j]).kind != kind {
            assert forall|j: int| 0 <= j < head.len() implies (#[trigger] head[j]).kind
                != kind by {
                assert(rules[j].kind != kind);
            }
            assert(rules[rules.len() - 1].kind != kind);
        }
        assert forall|m: int|
            0 <= m < rules.len() && (#[trigger] rules[m]).kind == kind && (forall|j: int|
                0 <= j < m ==> (#[trigger] rules[j]).kind
                    != kind) implies agent::first_of_kind(rules, kind) == Some(rules[m]) by {
            if m < head.len() {
                assert(head[m] == rules[m]);
                assert forall|j: int| 0 <= j < m implies (#[trigger] head[j]).kind != kind by {
                    assert(rules[j].kind != kind);
                }
            } else {
                assert forall|j: int| 0 <= j < head.len() implies (#[trigger] head[j]).kind
                    != kind by {
                    assert(rules[j].kind != kind);
                }
            }
        }
    }
}

/// A grant that opens under the key of its author is a root exactly from its beginning to its
/// end, where no actions are granted beside it. Its door then has what the grant says.
pub proof fn a_grant_is_a_root_in_its_time(
    author_key: Seq<u8>,
    grant: CheckedView,
    g: AgentGrantView,
    now: i64,
)
    requires
        agent::opened_agent(
            grant.bytes,
            grant.signer == Some(author_key),
            author_key,
            grant.policy,
        ) == Ok::<AgentGrantView, FormatError>(g),
    ensures
        ({
            let r = agent::chain_root(author_key, grant, None, now);
            &&& r is Ok <==> g.issued_at <= now <= g.expires_at
            &&& now < g.issued_at ==> r == Err::<ChainFactsView, ChainRefusal>(
                ChainRefusal::NotYetValid,
            )
            &&& now >= g.issued_at && now > g.expires_at ==> r == Err::<
                ChainFactsView,
                ChainRefusal,
            >(ChainRefusal::Expired)
            &&& r matches Ok(root) ==> {
                &&& root.grant_id == g.grant_id
                &&& root.holder_fpr == g.door_fpr
                &&& root.holder_verify == g.door_verify
                &&& root.files.len() == g.entries.len()
                &&& forall|i: int|
                    0 <= i < g.entries.len() ==> #[trigger] root.files[i] == g.entries[i].file_id
                &&& root.expires_at == g.expires_at
                &&& root.depth_left == g.max_depth
                &&& root.actions.len() == 0
                &&& g.tightening is None ==> root.tightening.len() == 0
                &&& g.tightening is Some ==> root.tightening == seq![g.tightening->0]
            }
        }),
{
    assert(g.tightening is Some ==> Seq::<Seq<u8>>::empty().push(g.tightening->0)
        =~= seq![g.tightening->0]);
}

/// A grant of actions stands beside a grant that is a root exactly where the author signed it,
/// it names the grant, does not outlive it, and is in its own time. The door then has its rules,
/// and for the rest what it has without.
pub proof fn actions_stand_beside_a_grant(
    author_key: Seq<u8>,
    grant: CheckedView,
    g: AgentGrantView,
    actions: CheckedView,
    a: action::ActionGrantView,
    now: i64,
)
    requires
        agent::opened_agent(
            grant.bytes,
            grant.signer == Some(author_key),
            author_key,
            grant.policy,
        ) == Ok::<AgentGrantView, FormatError>(g),
        agent::chain_root(author_key, grant, None, now) is Ok,
        action::opened_grant(actions.bytes, actions.signer == Some(author_key), author_key)
            == Ok::<action::ActionGrantView, FormatError>(a),
    ensures
        ({
            let r = agent::chain_root(author_key, grant, Some(actions), now);
            let bare = agent::chain_root(author_key, grant, None, now)->Ok_0;
            &&& r is Ok <==> a.grant_id == g.grant_id && a.expires_at <= g.expires_at
                && a.issued_at <= now <= a.expires_at
            &&& r matches Ok(root) ==> root.actions == a.rules && root == (ChainFactsView {
                actions: a.rules,
                ..bare
            })
            &&& a.grant_id != g.grant_id ==> r == Err::<ChainFactsView, ChainRefusal>(
                ChainRefusal::ActionsWrongGrant,
            )
            &&& a.grant_id == g.grant_id && a.expires_at > g.expires_at ==> r == Err::<
                ChainFactsView,
                ChainRefusal,
            >(ChainRefusal::ActionsOutliveGrant)
            &&& a.grant_id == g.grant_id && a.expires_at <= g.expires_at && now < a.issued_at ==> r
                == Err::<ChainFactsView, ChainRefusal>(ChainRefusal::NotYetValid)
            &&& a.grant_id == g.grant_id && a.expires_at <= g.expires_at && now >= a.issued_at
                && now > a.expires_at ==> r == Err::<ChainFactsView, ChainRefusal>(
                ChainRefusal::Expired,
            )
        }),
{
}

/// A grant that does not open under the key of the author is no root, and neither is one beside
/// a grant of actions that does not.
pub proof fn what_does_not_open_is_no_root(
    author_key: Seq<u8>,
    grant: CheckedView,
    actions: CheckedView,
    now: i64,
)
    ensures
        agent::opened_agent(grant.bytes, grant.signer == Some(author_key), author_key, grant.policy)
            is Err ==> agent::chain_root(author_key, grant, None, now) == Err::<
            ChainFactsView,
            ChainRefusal,
        >(ChainRefusal::BadGrant) && agent::chain_root(author_key, grant, Some(actions), now)
            == Err::<ChainFactsView, ChainRefusal>(ChainRefusal::BadGrant),
        grant.signer != Some(author_key) ==> agent::chain_root(author_key, grant, None, now)
            == Err::<ChainFactsView, ChainRefusal>(ChainRefusal::BadGrant),
        agent::chain_root(author_key, grant, None, now) is Ok && action::opened_grant(
            actions.bytes,
            actions.signer == Some(author_key),
            author_key,
        ) is Err ==> agent::chain_root(author_key, grant, Some(actions), now) == Err::<
            ChainFactsView,
            ChainRefusal,
        >(ChainRefusal::BadActionGrant),
        agent::chain_root(author_key, grant, None, now) is Err ==> agent::chain_root(
            author_key,
            grant,
            Some(actions),
            now,
        ) == agent::chain_root(author_key, grant, None, now),
{
}

/// A chain of links is followed exactly where each of its beginnings is, and a refusal is that
/// of the first link that is not followed, under its own place.
pub proof fn the_first_link_refused_decides(
    author_key: Seq<u8>,
    grant: CheckedView,
    links: Seq<CheckedView>,
    actions: Option<CheckedView>,
    now: i64,
    k: int,
)
    requires
        0 <= k < links.len() <= usize::MAX,
    ensures
        ({
            let head = agent::chain(author_key, grant, links.take(k), actions, now);
            let whole = agent::chain(author_key, grant, links, actions, now);
            &&& whole is Ok ==> head is Ok
            &&& head matches Err(e) ==> whole == Err::<ChainFactsView, ChainRefusal>(e)
            &&& head matches Ok(parent) ==> match agent::chain_step(
                parent,
                links[k],
                k as usize,
                actions is Some,
                now,
            ) {
                Err(e) => whole == Err::<ChainFactsView, ChainRefusal>(e),
                Ok(child) => k == links.len() - 1 ==> whole == Ok::<ChainFactsView, ChainRefusal>(
                    child,
                ),
            }
        }),
    decreases links.len(),
{
    let front = links.drop_last();
    if k == links.len() - 1 {
        assert(links.take(k) =~= front);
    } else {
        the_first_link_refused_decides(author_key, grant, front, actions, now, k);
        assert(front.take(k) =~= links.take(k));
        assert(front[k] == links[k]);
    }
}

/// The list of a grant is accepted exactly where it holds at most 256 files and their ids
/// strictly ascend, so that none occurs twice.
pub proof fn file_lists_that_are_accepted(es: Seq<EntryView>, list_tag: u16)
    ensures
        agent::entries_fault(es, list_tag) is None <==> es.len() <= 256 && (forall|i: int|
            0 <= i < es.len() - 1 ==> bytes::before(
                (#[trigger] es[i]).file_id,
                es[i + 1].file_id,
            )),
{
    order_from(es, 0);
}

proof fn order_from(es: Seq<EntryView>, from: nat)
    ensures
        agent::order_fault_from(es, from) is None <==> (forall|i: int|
            from <= i < es.len() - 1 ==> bytes::before(
                (#[trigger] es[i]).file_id,
                es[i + 1].file_id,
            )),
    decreases es.len() - from,
{
    if from + 1 < es.len() {
        order_from(es, from + 1);
        if agent::order_fault_from(es, from) is None {
            assert forall|i: int| from <= i < es.len() - 1 implies bytes::before(
                (#[trigger] es[i]).file_id,
                es[i + 1].file_id,
            ) by {}
        }
    }
}

/// A grant is accepted exactly where its door has an X25519 key whose bytes are its
/// fingerprint, its list of files is accepted, it goes at most four deep, and it does not end
/// before it begins.
pub proof fn agent_grants_that_are_accepted(g: AgentGrantView)
    ensures
        g.fault() is None <==> {
            &&& g.door_kem == 1
            &&& g.door_public.len() == 32
            &&& g.door_fpr == g.door_public
            &&& agent::entries_fault(g.entries, agent::tag::ENTRIES) is None
            &&& g.max_depth <= 4
            &&& g.issued_at <= g.expires_at
        },
{
}

/// A link is accepted exactly where its child has an X25519 key whose bytes are its
/// fingerprint, its list of files is accepted, it goes at most four deep, and it has at most
/// 32 rules, each of them accepted.
pub proof fn links_that_are_accepted(d: DelegationView)
    ensures
        d.fault() is None <==> {
            &&& d.child_kem == 1
            &&& d.child_public.len() == 32
            &&& d.child_fpr == d.child_public
            &&& agent::entries_fault(d.entries, agent::link_tag::ENTRIES) is None
            &&& d.depth <= 4
            &&& d.actions.len() <= 32
            &&& forall|i: int|
                0 <= i < d.actions.len() ==> action::rule_fault(#[trigger] d.actions[i]) is None
        },
{
    action::laws::no_rule_at_fault(d.actions);
}

/// A grant opens exactly where it has a signature, that holds, what is behind it can be read,
/// and it names the author asked for.
pub proof fn grants_that_are_opened(
    b: Seq<u8>,
    signed: bool,
    author_key: Seq<u8>,
    policy: Option<FormatError>,
)
    ensures
        ({
            let r = agent::opened_agent(b, signed, author_key, policy);
            let read = agent::agent_body_of(b.skip(64), b.take(64), policy);
            &&& r is Ok <==> b.len() >= 64 && signed && (read matches Ok(g) && g.author_key
                == author_key)
            &&& r matches Ok(g) ==> read == Ok::<AgentGrantView, FormatError>(g)
            &&& b.len() < 64 || !signed ==> r == Err::<AgentGrantView, FormatError>(
                FormatError::BadHeaderSignature,
            )
            &&& b.len() >= 64 && signed && read is Err ==> r == read
            &&& b.len() >= 64 && signed && (read matches Ok(g) && g.author_key != author_key) ==> r
                == Err::<AgentGrantView, FormatError>(
                FormatError::BadFieldLength { tag: 11, len: 32 },
            )
            &&& b.len() >= 64 ==> agent::peeked_agent(b, policy) == read
            &&& b.len() < 64 ==> agent::peeked_agent(b, policy) == Err::<
                AgentGrantView,
                FormatError,
            >(FormatError::BadHeaderSignature)
        }),
{
}

/// A link opens exactly where it has a signature, that holds, and what is behind it can be read.
pub proof fn links_that_are_opened(b: Seq<u8>, signed: bool, policy: Option<FormatError>)
    ensures
        ({
            let r = agent::opened_link(b, signed, policy);
            let read = agent::link_body_of(b.skip(64), b.take(64), policy);
            &&& b.len() >= 64 && signed ==> r == read
            &&& b.len() < 64 || !signed ==> r == Err::<DelegationView, FormatError>(
                FormatError::BadHeaderSignature,
            )
        }),
{
}

/// What is read was accepted.
pub proof fn what_is_read_was_accepted(
    body: Seq<u8>,
    signature: Seq<u8>,
    policy: Option<FormatError>,
)
    ensures
        agent::agent_body_of(body, signature, policy) matches Ok(g) ==> g.fault() is None
            && g.signature == signature,
        agent::link_body_of(body, signature, policy) matches Ok(d) ==> d.fault() is None
            && d.signature == signature,
{
}

/// What is accepted is written, where its fields fit; what is not is not.
pub proof fn what_is_accepted_is_written(g: AgentGrantView, d: DelegationView)
    ensures
        agent::agent_body_bytes(g) is Ok <==> g.fault() is None && (agent::entries_bytes(
            g.entries,
        ) matches Ok(es) && tlv::sealed(g.recs(es)) is Ok),
        agent::link_body_bytes(d) is Ok <==> d.fault() is None && (agent::entries_bytes(
            d.entries,
        ) matches Ok(es) && (action::rules_bytes(d.actions) matches Ok(rules) && tlv::sealed(
            d.recs(es, rules),
        ) is Ok)),
{
}

/// A list of files stands in records under the numbers from nought on.
pub proof fn where_files_stand(es: Seq<EntryView>)
    requires
        es.len() <= 256,
    ensures
        agent::entries_recs(es) matches Ok(rs) ==> {
            &&& rs.len() == es.len()
            &&& forall|i: int|
                0 <= i < rs.len() ==> (#[trigger] rs[i]).0 == i && tlv::sealed(es[i].recs())
                    == Ok::<Seq<u8>, FormatError>(rs[i].1)
        },
    decreases es.len(),
{
    if es.len() > 0 {
        let front = es.drop_last();
        where_files_stand(front);
        if let Ok(rs) = agent::entries_recs(es) {
            let prior = agent::entries_recs(front)->Ok_0;
            assert forall|i: int| 0 <= i < rs.len() implies (#[trigger] rs[i]).0 == i
                && tlv::sealed(es[i].recs()) == Ok::<Seq<u8>, FormatError>(rs[i].1) by {
                if i < front.len() {
                    assert(prior[i] == rs[i]);
                    assert(front[i] == es[i]);
                }
            }
        }
    }
}

/// A document is read exactly where its records are, and they hold what it needs.
pub proof fn documents_that_are_read(b: Seq<u8>)
    ensures
        agent::entry_of(b) is Ok <==> (
            tlv::read(agent::EntrySchema, b) matches Ok(rs)
                && agent::entry_in(rs) is Ok
        ),
        tlv::read(agent::EntrySchema, b) matches Ok(rs)
            ==> agent::entry_of(b) == agent::entry_in(rs),
{
}

/// A list of files that is read has at most 256, each read from its record in order.
pub proof fn lists_of_files_that_are_read(rs: Seq<Rec>, list_tag: u16)
    ensures
        agent::entries_in(rs, list_tag) matches Ok(es) ==> {
            &&& es.len() == rs.len()
            &&& es.len() <= 256
            &&& forall|i: int|
                0 <= i < rs.len() ==> agent::entry_of((#[trigger] rs[i]).1) == Ok::<
                    EntryView,
                    FormatError,
                >(es[i])
        },
    decreases rs.len(),
{
    if rs.len() > 0 {
        let front = rs.drop_last();
        lists_of_files_that_are_read(front, list_tag);
        if let Ok(es) = agent::entries_in(rs, list_tag) {
            let prior = agent::entries_in(front, list_tag)->Ok_0;
            assert forall|i: int| 0 <= i < rs.len() implies agent::entry_of((#[trigger] rs[i]).1)
                == Ok::<EntryView, FormatError>(es[i]) by {
                if i < front.len() {
                    assert(front[i] == rs[i]);
                    assert(prior[i] == es[i]);
                }
            }
        }
    }
}

/// A list of files is read exactly where its records are, and the list is accepted.
pub proof fn lists_of_files(b: Seq<u8>, list_tag: u16)
    ensures
        agent::entries_of(b, list_tag) is Ok <==> {
            let (rs, torn) = tlv::scan(b, None);
            torn is None && (agent::entries_in(rs, list_tag) matches Ok(es)
                && agent::entries_fault(es, list_tag) is None)
        },
        agent::entries_of(b, list_tag) matches Ok(es) ==> agent::entries_in(
            tlv::scan(b, None).0,
            list_tag,
        ) == Ok::<Seq<EntryView>, FormatError>(es),
{
}

/// Where the fields of an entry stand, and which of them have to be there.
pub proof fn where_the_fields_of_an_entry_stand(rs: Seq<Rec>)
    ensures
        agent::entry_in(rs) matches Ok(v) ==> {
            &&& tlv::lookup(rs, 1) == Some(v.file_id)
            &&& tlv::lookup(rs, 2) == Some(v.share_b.enc)
            &&& tlv::lookup(rs, 3) == Some(v.share_b.nonce)
            &&& tlv::lookup(rs, 4) == Some(v.share_b.ct)
        },
        agent::entry_in(rs) is Ok <==> {
            &&& tlv::lookup(rs, 1) is Some
            &&& tlv::lookup(rs, 2) is Some
            &&& tlv::lookup(rs, 3) is Some
            &&& tlv::lookup(rs, 4) is Some
        },
{
}

/// Where the fields of a grant stand, and which of them have to be there.
pub proof fn where_the_fields_of_a_grant_stand(rs: Seq<Rec>, signature: Seq<u8>)
    ensures
        agent::agent_grant_in(rs, signature) matches Ok(v) ==> {
            &&& tlv::lookup(rs, 1) == Some(v.grant_id)
            &&& tlv::lookup(rs, 2) == Some(v.door_fpr)
            &&& tlv::lookup(rs, 3) matches Some(b) && v.door_kem == b[0]
            &&& tlv::lookup(rs, 4) == Some(v.door_public)
            &&& tlv::lookup(rs, 5) == Some(v.door_verify)
            &&& tlv::lookup(rs, 6) matches Some(b) && v.entries == agent::entries_of(b, 6)->Ok_0
            &&& tlv::lookup(rs, 7) matches Some(b) && v.issued_at == bytes::num64s(b)
            &&& tlv::lookup(rs, 8) matches Some(b) && v.expires_at == bytes::num64s(b)
            &&& v.tightening == tlv::lookup(rs, 9)
            &&& tlv::lookup(rs, 10) matches Some(b) && v.max_depth == b[0]
            &&& tlv::lookup(rs, 11) == Some(v.author_key)
            &&& v.signature == signature
        },
        agent::agent_grant_in(rs, signature) is Ok <==> {
            &&& tlv::lookup(rs, 1) is Some
            &&& tlv::lookup(rs, 2) is Some
            &&& tlv::lookup(rs, 3) is Some
            &&& tlv::lookup(rs, 4) is Some
            &&& tlv::lookup(rs, 5) is Some
            &&& tlv::lookup(rs, 6) is Some
            &&& tlv::lookup(rs, 7) is Some
            &&& tlv::lookup(rs, 8) is Some
            &&& tlv::lookup(rs, 10) is Some
            &&& tlv::lookup(rs, 11) is Some
        },
{
}

/// Where the fields of a link stand, and which of them have to be there.
pub proof fn where_the_fields_of_a_link_stand(rs: Seq<Rec>, signature: Seq<u8>)
    ensures
        agent::delegation_in(rs, signature) matches Ok(v) ==> {
            &&& tlv::lookup(rs, 1) == Some(v.grant_id)
            &&& tlv::lookup(rs, 2) == Some(v.parent_fpr)
            &&& tlv::lookup(rs, 3) == Some(v.child_fpr)
            &&& tlv::lookup(rs, 4) matches Some(b) && v.child_kem == b[0]
            &&& tlv::lookup(rs, 5) == Some(v.child_public)
            &&& tlv::lookup(rs, 6) == Some(v.child_verify)
            &&& tlv::lookup(rs, 7) matches Some(b) && v.entries == agent::entries_of(b, 7)->Ok_0
            &&& tlv::lookup(rs, 8) matches Some(b) && v.expires_at == bytes::num64s(b)
            &&& v.tightening == tlv::lookup(rs, 9)
            &&& tlv::lookup(rs, 10) matches Some(b) && v.depth == b[0]
            &&& v.actions == match tlv::lookup(rs, 32769) {
                Some(x) => action::rules_of(x)->Ok_0,
                None => Seq::empty(),
            }
            &&& v.signature == signature
        },
        agent::delegation_in(rs, signature) is Ok <==> {
            &&& tlv::lookup(rs, 1) is Some
            &&& tlv::lookup(rs, 2) is Some
            &&& tlv::lookup(rs, 3) is Some
            &&& tlv::lookup(rs, 4) is Some
            &&& tlv::lookup(rs, 5) is Some
            &&& tlv::lookup(rs, 6) is Some
            &&& tlv::lookup(rs, 7) is Some
            &&& tlv::lookup(rs, 8) is Some
            &&& tlv::lookup(rs, 10) is Some
        },
{
}

} // verus!
