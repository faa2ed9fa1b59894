//! Who decides over a server, and how its documents stand to each other.

use crate::bytes;
use crate::control::{
    self, BindingView, ChainErrorView, Continuity, Durability, EffectiveView, OldLeases, Outcome,
    PayloadView, ReceiptView, Recovery, RequestView, SignatureView, SignedRequestView,
    SignedTransferView, Status, TransferView,
};
use crate::error::FormatError;
use crate::text;
use crate::tlv::{self, Rec};
use crate::transcript::Label;
use vstd::bytes::*;
use vstd::prelude::*;
use vstd::utf8::*;

verus! {

/// The votes are the signers that are in the roster, each counted as often as it signed.
pub proof fn votes_are_the_signers_in_the_roster(signers: Seq<Seq<u8>>, roster: Seq<Seq<u8>>)
    ensures
        control::votes(signers, roster) == signers.filter(|k: Seq<u8>| roster.contains(k)).len(),
    decreases signers.len(),
{
    reveal(Seq::filter);
    if signers.len() > 0 {
        votes_are_the_signers_in_the_roster(signers.drop_last(), roster);
    }
}

/// A signer outside the roster never changes the count, wherever it signs, and one inside it
/// adds one.
pub proof fn only_members_count(
    before: Seq<Seq<u8>>,
    key: Seq<u8>,
    after: Seq<Seq<u8>>,
    roster: Seq<Seq<u8>>,
)
    ensures
        !roster.contains(key) ==> control::votes(before + seq![key] + after, roster)
            == control::votes(before + after, roster),
        roster.contains(key) ==> control::votes(before + seq![key] + after, roster)
            == control::votes(before + after, roster) + 1,
    decreases after.len(),
{
    let with = before + seq![key] + after;
    let without = before + after;
    if after.len() == 0 {
        assert(with.drop_last() =~= before);
        assert(without =~= before);
    } else {
        only_members_count(before, key, after.drop_last(), roster);
        assert(with.drop_last() =~= before + seq![key] + after.drop_last());
        assert(without.drop_last() =~= before + after.drop_last());
    }
}

/// A count is at most the number of signers, is that number where all are members, and is none
/// where none is: signers that are all strangers have no vote, however many they are.
pub proof fn counts_of_strangers_and_of_members(signers: Seq<Seq<u8>>, roster: Seq<Seq<u8>>)
    ensures
        control::votes(signers, roster) <= signers.len(),
        (forall|i: int| 0 <= i < signers.len() ==> roster.contains(#[trigger] signers[i]))
            <==> control::votes(signers, roster) == signers.len(),
        (forall|i: int| 0 <= i < signers.len() ==> !roster.contains(#[trigger] signers[i]))
            <==> control::votes(signers, roster) == 0,
    decreases signers.len(),
{
    if signers.len() > 0 {
        let front = signers.drop_last();
        counts_of_strangers_and_of_members(front, roster);
        assert forall|i: int| 0 <= i < front.len() implies front[i] == #[trigger] signers[i] by {}
        let last = signers.len() - 1;
        if control::votes(signers, roster) == signers.len() {
            assert forall|i: int| 0 <= i < signers.len() implies roster.contains(
                #[trigger] signers[i],
            ) by {
                if i < last {
                    assert(roster.contains(front[i]));
                }
            }
        }
        if control::votes(signers, roster) == 0 {
            assert forall|i: int| 0 <= i < signers.len() implies !roster.contains(
                #[trigger] signers[i],
            ) by {
                if i < last {
                    assert(!roster.contains(front[i]));
                }
            }
        }
        if forall|i: int| 0 <= i < signers.len() ==> roster.contains(#[trigger] signers[i]) {
            assert forall|i: int| 0 <= i < front.len() implies roster.contains(
                #[trigger] front[i],
            ) by {
                assert(roster.contains(signers[i]));
            }
            assert(roster.contains(signers[last]));
        }
        if forall|i: int| 0 <= i < signers.len() ==> !roster.contains(#[trigger] signers[i]) {
            assert forall|i: int| 0 <= i < front.len() implies !roster.contains(
                #[trigger] front[i],
            ) by {
                assert(!roster.contains(signers[i]));
            }
            assert(!roster.contains(signers[last]));
        }
    }
}

/// The order in which a roster is written decides nothing.
pub proof fn the_order_of_a_roster_decides_nothing(
    signers: Seq<Seq<u8>>,
    roster: Seq<Seq<u8>>,
    other: Seq<Seq<u8>>,
)
    requires
        forall|k: Seq<u8>| #[trigger] roster.contains(k) <==> other.contains(k),
    ensures
        control::votes(signers, roster) == control::votes(signers, other),
    decreases signers.len(),
{
    if signers.len() > 0 {
        the_order_of_a_roster_decides_nothing(signers.drop_last(), roster, other);
    }
}

/// Two bindings are unrelated exactly where the server, the organisation or the epoch differs.
/// Of related ones, the revision decides first, and then the digest: that of the bytes for the
/// same revision, the one referred to for the next.
pub proof fn how_bindings_stand_to_each_other(
    seen: BindingView,
    seen_digest: Seq<u8>,
    new: BindingView,
    new_digest: Seq<u8>,
)
    ensures
        ({
            let c = control::continuity_of(seen, seen_digest, new, new_digest);
            let related = seen.authority_id == new.authority_id && seen.tenant == new.tenant
                && seen.epoch == new.epoch;
            &&& (c == Continuity::Unrelated <==> seen.authority_id != new.authority_id
                || seen.tenant != new.tenant || seen.epoch != new.epoch)
            &&& (c == Continuity::Rollback <==> related && new.revision < seen.revision)
            &&& (c == Continuity::Same <==> related && new.revision == seen.revision && new_digest
                == seen_digest)
            &&& (c == Continuity::Newer { adjacent: true } <==> related && new.revision
                == seen.revision + 1 && new.previous == seen_digest)
            &&& (c == Continuity::Newer { adjacent: false } <==> related && new.revision
                > seen.revision + 1)
            &&& (c == Continuity::Fork <==> related && ((new.revision == seen.revision && new_digest
                != seen_digest) || (new.revision == seen.revision + 1 && new.previous
                != seen_digest)))
        }),
{
}

/// Nothing else in the bindings decides how they stand to each other.
pub proof fn what_else_a_binding_says_decides_nothing(
    seen: BindingView,
    seen_digest: Seq<u8>,
    new: BindingView,
    new_digest: Seq<u8>,
    seen_again: BindingView,
    new_again: BindingView,
)
    requires
        seen_again.authority_id == seen.authority_id && seen_again.tenant == seen.tenant
            && seen_again.epoch == seen.epoch && seen_again.revision == seen.revision,
        new_again.authority_id == new.authority_id && new_again.tenant == new.tenant
            && new_again.epoch == new.epoch && new_again.revision == new.revision
            && new_again.previous == new.previous,
    ensures
        control::continuity_of(seen_again, seen_digest, new_again, new_digest)
            == control::continuity_of(seen, seen_digest, new, new_digest),
{
}

proof fn signers_are_few(b: Seq<u8>)
    requires
        control::enveloped(b) is Ok,
    ensures
        ({
            let (ss, body) = control::enveloped(b)->Ok_0;
            1 <= ss.len() <= 16 && control::signatures_sized(ss)
        }),
{
    control::signatures_in_counts(b.skip(1), b[0] as nat);
}

/// A transfer that can be read is accepted exactly where it names the server, its epoch and its
/// key, has not ended, at least a threshold of one or more members of the roster signed it, and
/// the binding inside is signed with its own key and is for the epoch and the server that the
/// transfer names.
pub proof fn a_transfer_is_accepted_exactly_where_a_quorum_signed(
    e: EffectiveView,
    t: SignedTransferView,
    transfer: TransferView,
    signers: Seq<Seq<u8>>,
    next: BindingView,
    now: i64,
)
    requires
        control::opened_transfer(t.bytes, t.held)
            == Ok::<(TransferView, Seq<Seq<u8>>), FormatError>(
            (transfer, signers),
        ),
        control::peeked_binding(transfer.binding) == Ok::<BindingView, FormatError>(next),
    ensures
        control::passed_on(e, t, now) is Ok <==> {
            &&& transfer.authority_id == e.binding.authority_id
            &&& transfer.from_epoch == e.binding.epoch
            &&& transfer.from_lease == e.binding.lease_public
            &&& now <= transfer.expires_at
            &&& 1 <= e.binding.threshold
            &&& signers.filter(|k: Seq<u8>| e.binding.roster.contains(k)).len()
                >= e.binding.threshold
            &&& t.signer == Some(next.lease_public)
            &&& next.epoch == transfer.to_epoch
            &&& next.authority_id == e.binding.authority_id
        },
        control::passed_on(e, t, now) matches Ok(after) ==> {
            &&& after.binding == next
            &&& after.bytes == transfer.binding
            &&& after.transition_at == Some(transfer.transition_at)
            &&& after.old_leases == Some(transfer.old_leases)
            &&& after.previous_keys == e.previous_keys + seq![e.binding.lease_public]
        },
{
    signers_are_few(t.bytes);
    votes_are_the_signers_in_the_roster(signers, e.binding.roster);
    counts_of_strangers_and_of_members(signers, e.binding.roster);
    assert(e.previous_keys.push(e.binding.lease_public) =~= e.previous_keys + seq![
        e.binding.lease_public,
    ]);
}

/// Each refusal of a transfer that can be read has its one cause, and what stands earlier in
/// the order is refused first: the server, the epoch, the key, the time, the quorum.
pub proof fn why_a_transfer_is_refused(
    e: EffectiveView,
    t: SignedTransferView,
    transfer: TransferView,
    signers: Seq<Seq<u8>>,
    now: i64,
)
    requires
        control::opened_transfer(t.bytes, t.held)
            == Ok::<(TransferView, Seq<Seq<u8>>), FormatError>(
            (transfer, signers),
        ),
    ensures
        ({
            let r = control::passed_on(e, t, now);
            let have = signers.filter(|k: Seq<u8>| e.binding.roster.contains(k)).len();
            let server = transfer.authority_id == e.binding.authority_id;
            let epoch = server && transfer.from_epoch == e.binding.epoch;
            let named = epoch && transfer.from_lease == e.binding.lease_public;
            &&& !server ==> r == Err::<EffectiveView, ChainErrorView>(
                ChainErrorView::Broken("тождество сервера сменилось"@),
            )
            &&& server && !epoch ==> r == Err::<EffectiveView, ChainErrorView>(
                ChainErrorView::Broken("сертификат выписан не от действующей эпохи"@),
            )
            &&& epoch && !named ==> r == Err::<EffectiveView, ChainErrorView>(
                ChainErrorView::Broken("сертификат называет другой прежний ключ"@),
            )
            &&& (r == Err::<EffectiveView, ChainErrorView>(
                ChainErrorView::Expired { expires_at: transfer.expires_at, now },
            ) <==> named && transfer.expires_at < now)
            &&& named && now <= transfer.expires_at && (e.binding.threshold == 0 || have
                < e.binding.threshold) ==> r == Err::<EffectiveView, ChainErrorView>(
                ChainErrorView::NotAuthorized { have: have as u8, need: e.binding.threshold },
            )
            &&& r matches Err(ChainErrorView::NotAuthorized { .. }) ==> named && now
                <= transfer.expires_at && (e.binding.threshold == 0 || have < e.binding.threshold)
        }),
{
    signers_are_few(t.bytes);
    votes_are_the_signers_in_the_roster(signers, e.binding.roster);
    counts_of_strangers_and_of_members(signers, e.binding.roster);
}

/// A transfer that cannot be read, or that holds a binding that cannot, changes no server.
pub proof fn an_unreadable_transfer_is_refused(e: EffectiveView, t: SignedTransferView, now: i64)
    ensures
        control::opened_transfer(t.bytes, t.held) matches Err(why) ==> control::passed_on(e, t, now)
            == Err::<EffectiveView, ChainErrorView>(ChainErrorView::Malformed(why.says())),
        control::opened_transfer(t.bytes, t.held) matches Ok((transfer, _)) ==> (
        control::peeked_binding(transfer.binding) is Err ==> control::passed_on(e, t, now) is Err),
{
}

/// A server starts with its first binding exactly where that opens under the anchor and its
/// signature holds under it. Then nothing has passed on yet.
pub proof fn a_chain_starts_at_the_anchor(
    first: Seq<u8>,
    signer: Option<Seq<u8>>,
    anchor: Seq<u8>,
)
    ensures
        ({
            let r = control::anchored(first, signer, anchor);
            &&& r is Ok <==> {
                &&& signer == Some(anchor)
                &&& 64 <= first.len() <= 65_536
                &&& control::binding_of(first.skip(64)) matches Ok(b) && b.lease_public == anchor
            }
            &&& r matches Ok(e) ==> {
                &&& control::binding_of(first.skip(64)) == Ok::<BindingView, FormatError>(e.binding)
                &&& e.bytes == first
                &&& e.transition_at is None
                &&& e.old_leases is None
                &&& e.previous_keys.len() == 0
            }
            &&& 64 <= first.len() <= 65_536 && signer != Some(anchor) ==> r == Err::<
                EffectiveView,
                ChainErrorView,
            >(ChainErrorView::NotAnchored)
        }),
{
}

/// A succession is accepted exactly where each of its beginnings is, and a refusal is that of
/// the first transfer that is refused.
pub proof fn the_first_transfer_refused_decides(
    first: Seq<u8>,
    signer: Option<Seq<u8>>,
    transfers: Seq<SignedTransferView>,
    anchor: Seq<u8>,
    now: i64,
    k: int,
)
    requires
        0 <= k < transfers.len(),
    ensures
        ({
            let head = control::succession(first, signer, transfers.take(k), anchor, now);
            let whole = control::succession(first, signer, transfers, anchor, now);
            &&& whole is Ok ==> head is Ok
            &&& head matches Err(why) ==> whole == Err::<EffectiveView, ChainErrorView>(why)
            &&& head matches Ok(e) ==> match control::passed_on(e, transfers[k], now) {
                Err(why) => whole == Err::<EffectiveView, ChainErrorView>(why),
                Ok(after) => k == transfers.len() - 1 ==> whole == Ok::<
                    EffectiveView,
                    ChainErrorView,
                >(after),
            }
        }),
    decreases transfers.len(),
{
    let front = transfers.drop_last();
    if k == transfers.len() - 1 {
        assert(transfers.take(k) =~= front);
    } else {
        the_first_transfer_refused_decides(first, signer, front, anchor, now, k);
        assert(front.take(k) =~= transfers.take(k));
        assert(front[k] == transfers[k]);
    }
}

/// Without a transfer a server is what its first binding says.
pub proof fn without_a_transfer(
    first: Seq<u8>,
    signer: Option<Seq<u8>>,
    anchor: Seq<u8>,
    now: i64,
)
    ensures
        control::succession(first, signer, Seq::empty(), anchor, now) == control::anchored(
            first,
            signer,
            anchor,
        ),
{
}

/// Where signatures stand: one behind the other, 32 bytes of key and 64 of signature each, and
/// the body behind the last.
pub proof fn where_signatures_stand(b: Seq<u8>, n: nat)
    ensures
        control::signatures_in(b, n) is Ok <==> b.len() >= 96 * n,
        control::signatures_in(b, n) matches Ok((ss, body)) ==> {
            &&& ss.len() == n
            &&& body == b.skip(96 * n as int)
            &&& forall|i: int|
                0 <= i < n ==> (#[trigger] ss[i]).0 == b.subrange(96 * i, 96 * i + 32) && ss[i].1
                    == b.subrange(96 * i + 32, 96 * i + 96)
        },
    decreases n,
{
    if n == 0 {
        assert(b.skip(0) =~= b);
    } else if b.len() >= 96 {
        let tail = b.skip(96);
        where_signatures_stand(tail, (n - 1) as nat);
        if let Ok((more, rest)) = control::signatures_in(tail, (n - 1) as nat) {
            let (ss, body) = control::signatures_in(b, n)->Ok_0;
            assert(tail.skip(96 * (n - 1)) =~= b.skip(96 * n as int));
            assert forall|i: int| 0 <= i < n implies (#[trigger] ss[i]).0 == b.subrange(
                96 * i,
                96 * i + 32,
            ) && ss[i].1 == b.subrange(96 * i + 32, 96 * i + 96) by {
                if i == 0 {
                    assert(b.take(32) =~= b.subrange(0, 32));
                } else {
                    assert(ss[i] == more[i - 1]);
                    assert(tail.subrange(96 * (i - 1), 96 * (i - 1) + 32) =~= b.subrange(
                        96 * i,
                        96 * i + 32,
                    ));
                    assert(tail.subrange(96 * (i - 1) + 32, 96 * (i - 1) + 96) =~= b.subrange(
                        96 * i + 32,
                        96 * i + 96,
                    ));
                }
            }
        }
    }
}

/// An envelope is opened exactly where it is at most 64 kibibytes, says that it has one to
/// sixteen signatures, holds so many, and their keys strictly ascend.
pub proof fn envelopes_that_are_opened(b: Seq<u8>)
    ensures
        control::enveloped(b) is Ok <==> {
            &&& 1 <= b.len() <= 65_536
            &&& 1 <= b[0] <= 16
            &&& b.len() >= 1 + 96 * b[0]
            &&& forall|i: int|
                0 <= i < b[0] - 1 ==> bytes::before(
                    #[trigger] b.subrange(1 + 96 * i, 33 + 96 * i),
                    b.subrange(97 + 96 * i, 129 + 96 * i),
                )
        },
        control::enveloped(b) matches Ok((ss, body)) ==> {
            &&& ss.len() == b[0]
            &&& body == b.skip(1 + 96 * b[0])
            &&& forall|i: int|
                0 <= i < ss.len() ==> (#[trigger] ss[i]).0 == b.subrange(1 + 96 * i, 33 + 96 * i)
                    && ss[i].1 == b.subrange(33 + 96 * i, 97 + 96 * i)
        },
{
    if b.len() > 0 {
        let n = b[0] as nat;
        let tail = b.skip(1);
        where_signatures_stand(tail, n);
        if let Ok((ss, body)) = control::signatures_in(tail, n) {
            assert(tail.skip(96 * n as int) =~= b.skip(1 + 96 * n as int));
            assert forall|i: int| 0 <= i < n implies (#[trigger] ss[i]).0 == b.subrange(
                1 + 96 * i,
                33 + 96 * i,
            ) && ss[i].1 == b.subrange(33 + 96 * i, 97 + 96 * i) by {
                assert(tail.subrange(96 * i, 96 * i + 32) =~= b.subrange(1 + 96 * i, 33 + 96 * i));
                assert(tail.subrange(96 * i + 32, 96 * i + 96) =~= b.subrange(
                    33 + 96 * i,
                    97 + 96 * i,
                ));
            }
            let keys = control::signers_of(ss);
            if control::keys_ascend(keys) {
                assert forall|i: int| 0 <= i < n - 1 implies bytes::before(
                    #[trigger] b.subrange(1 + 96 * i, 33 + 96 * i),
                    b.subrange(97 + 96 * i, 129 + 96 * i),
                ) by {
                    assert(control::step_up(keys, i));
                    assert(keys[i] == ss[i].0 && keys[i + 1] == ss[i + 1].0);
                }
            }
            if forall|i: int|
                0 <= i < n - 1 ==> bytes::before(
                    #[trigger] b.subrange(1 + 96 * i, 33 + 96 * i),
                    b.subrange(97 + 96 * i, 129 + 96 * i),
                ) {
                assert forall|i: int| 0 <= i < keys.len() - 1 implies #[trigger] control::step_up(
                    keys,
                    i,
                ) by {
                    assert(keys[i] == ss[i].0 && keys[i + 1] == ss[i + 1].0);
                    assert(bytes::before(
                        b.subrange(1 + 96 * i, 33 + 96 * i),
                        b.subrange(97 + 96 * i, 129 + 96 * i),
                    ));
                }
            }
        }
    }
}

/// An order is opened exactly where its envelope is, every signature in it holds, and the body
/// is an order. Who signed is who is named beside the signatures, in their order.
pub proof fn orders_that_are_opened(b: Seq<u8>, held: Seq<bool>, body_hash: Seq<u8>)
    ensures
        ({
            let r = control::opened_request(b, held, body_hash);
            &&& r is Ok <==> (control::enveloped(b) matches Ok((ss, body)) && held.len() >= ss.len()
                && (forall|i: int| 0 <= i < ss.len() ==> #[trigger] held[i])
                && control::request_of(body) is Ok)
            &&& control::enveloped(b) matches Ok((ss, body)) ==> {
                &&& r matches Ok(q) ==> {
                    &&& control::request_of(body) == Ok::<RequestView, FormatError>(q.request)
                    &&& q.body_hash == body_hash
                    &&& q.signers.len() == ss.len()
                    &&& forall|i: int| 0 <= i < ss.len() ==> #[trigger] q.signers[i] == ss[i].0
                }
                &&& (held.len() < ss.len() || exists|i: int|
                    0 <= i < ss.len() && !#[trigger] held[i])
                    ==> r == Err::<SignedRequestView, FormatError>(FormatError::BadHeaderSignature)
            }
        }),
{
}

/// A transfer is opened exactly where its envelope is, every signature in it holds, and the
/// body is a transfer. Who signed is who is named beside the signatures, in their order.
pub proof fn transfers_that_are_opened(b: Seq<u8>, held: Seq<bool>)
    ensures
        ({
            let r = control::opened_transfer(b, held);
            &&& r is Ok <==> (control::enveloped(b) matches Ok((ss, body)) && held.len() >= ss.len()
                && (forall|i: int| 0 <= i < ss.len() ==> #[trigger] held[i])
                && control::transfer_of(body) is Ok)
            &&& control::enveloped(b) matches Ok((ss, body)) ==> {
                &&& r matches Ok((t, signers)) ==> {
                    &&& control::transfer_of(body) == Ok::<TransferView, FormatError>(t)
                    &&& signers.len() == ss.len()
                    &&& forall|i: int| 0 <= i < ss.len() ==> #[trigger] signers[i] == ss[i].0
                }
                &&& (held.len() < ss.len() || exists|i: int|
                    0 <= i < ss.len() && !#[trigger] held[i])
                    ==> r == Err::<(TransferView, Seq<Seq<u8>>), FormatError>(
                    FormatError::BadHeaderSignature,
                )
            }
        }),
{
}

/// Every signature of an envelope is to be checked, each under its own key, over the body.
pub proof fn every_signature_is_checked(label: Label, b: Seq<u8>)
    ensures
        control::claims_in(label, b) is Ok <==> control::enveloped(b) is Ok,
        control::enveloped(b) matches Ok((ss, body)) ==> {
            let cs = control::claims_in(label, b)->Ok_0;
            &&& cs.len() == ss.len()
            &&& forall|i: int|
                0 <= i < ss.len() ==> (#[trigger] cs[i]).key == ss[i].0 && cs[i].signature
                    == ss[i].1 && cs[i].transcript.label == label && cs[i].transcript.body == body
        },
{
}

/// Another signature joins exactly where the ones before all hold, what was signed can be read,
/// the key has not signed yet, there is a signature, and there are not sixteen already.
pub proof fn who_may_sign_too(
    ss: Seq<SignatureView>,
    body: Seq<u8>,
    held: Seq<bool>,
    unreadable: Option<FormatError>,
    key: Seq<u8>,
    signature: Option<Seq<u8>>,
)
    requires
        control::signers_of(ss).no_duplicates(),
    ensures
        control::cosigned(ss, body, held, unreadable, key, signature) is Ok <==> {
            &&& held.len() >= ss.len()
            &&& forall|i: int| 0 <= i < ss.len() ==> #[trigger] held[i]
            &&& unreadable is None
            &&& forall|i: int| 0 <= i < ss.len() ==> (#[trigger] ss[i]).0 != key
            &&& signature is Some
            &&& ss.len() < 16
        },
{
    let keys = control::signers_of(ss);
    if keys.contains(key) {
        let i = keys.index_of(key);
        assert(ss[i].0 == key);
    } else {
        assert forall|i: int| 0 <= i < ss.len() implies (#[trigger] ss[i]).0 != key by {
            assert(keys[i] == ss[i].0);
        }
    }
    if let Some(s) = signature {
        let more = control::signers_of(ss.push((key, s)));
        assert forall|i: int| 0 <= i < ss.len() implies #[trigger] more[i] == keys[i] by {}
        if !keys.contains(key) {
            assert(more.no_duplicates());
        }
    }
}

/// A list of addresses is written exactly where it has one to eight, each of one to 256
/// printable characters of ASCII without a space.
pub proof fn addresses_that_are_written(urls: Seq<Seq<char>>, tag: u16)
    ensures
        control::urls_bytes(urls, tag) is Ok <==> 1 <= urls.len() <= 8 && (forall|i: int|
            0 <= i < urls.len() ==> spelled_out(#[trigger] urls[i])),
{
    no_address_at_fault(urls, tag);
}

/// One to 256 bytes from the exclamation mark to the tilde.
pub open spec fn spelled_out(url: Seq<char>) -> bool {
    let b = encode_utf8(url);
    1 <= b.len() <= 256 && (forall|i: int| 0 <= i < b.len() ==> 33 <= #[trigger] b[i] <= 126)
}

proof fn no_address_at_fault(urls: Seq<Seq<char>>, tag: u16)
    ensures
        control::first_url_fault(urls, tag) is None <==> (forall|i: int|
            0 <= i < urls.len() ==> spelled_out(#[trigger] urls[i])),
    decreases urls.len(),
{
    if urls.len() > 0 {
        let rest = urls.drop_first();
        no_address_at_fault(rest, tag);
        one_address(urls[0], tag);
        if control::first_url_fault(urls, tag) is None {
            assert forall|i: int| 0 <= i < urls.len() implies spelled_out(#[trigger] urls[i]) by {
                if i > 0 {
                    assert(rest[i - 1] == urls[i]);
                }
            }
        }
        if forall|i: int| 0 <= i < urls.len() ==> spelled_out(#[trigger] urls[i]) {
            assert(spelled_out(urls[0]));
            assert forall|i: int| 0 <= i < rest.len() implies spelled_out(#[trigger] rest[i]) by {
                assert(rest[i] == urls[i + 1]);
            }
        }
    }
}

proof fn one_address(url: Seq<char>, tag: u16)
    ensures
        control::url_fault(url, tag) is None <==> spelled_out(url),
{
    let b = encode_utf8(url);
    if control::url_fault(url, tag) is None {
        assert forall|i: int| 0 <= i < b.len() implies 33 <= #[trigger] b[i] <= 126 by {
            assert(control::graphic(b[i]));
        }
    }
    if spelled_out(url) {
        assert forall|i: int| 0 <= i < b.len() implies control::graphic(#[trigger] b[i]) by {}
    }
}

/// Addresses that are read are one to eight, each spelled out, and none twice.
pub proof fn addresses_that_are_read(b: Seq<u8>, tag: u16)
    requires
        control::urls_of(b, tag) is Ok,
    ensures
        ({
            let urls = control::urls_of(b, tag)->Ok_0;
            &&& 1 <= urls.len() <= 8
            &&& urls.no_duplicates()
            &&& forall|i: int| 0 <= i < urls.len() ==> spelled_out(#[trigger] urls[i])
        }),
{
    addresses_behind(b, Seq::empty(), tag);
}

proof fn addresses_behind(b: Seq<u8>, seen: Seq<Seq<char>>, tag: u16)
    requires
        control::urls_behind(b, seen, tag) is Ok,
        seen.len() <= 8,
        seen.no_duplicates(),
        forall|i: int| 0 <= i < seen.len() ==> spelled_out(#[trigger] seen[i]),
    ensures
        ({
            let urls = control::urls_behind(b, seen, tag)->Ok_0;
            &&& 1 <= urls.len() <= 8
            &&& urls.no_duplicates()
            &&& forall|i: int| 0 <= i < urls.len() ==> spelled_out(#[trigger] urls[i])
        }),
    decreases b.len(),
{
    if b.len() > 0 {
        let len = bytes::num16(b.subrange(0, 2));
        let tail = b.skip(2);
        let url = decode_utf8(tail.take(len as int));
        one_address(url, tag);
        let more = seen.push(url);
        assert forall|i: int| 0 <= i < more.len() implies spelled_out(#[trigger] more[i]) by {
            if i < seen.len() {
                assert(more[i] == seen[i]);
            }
        }
        addresses_behind(tail.skip(len as int), more, tag);
    }
}

/// A set of keys is written exactly where it is not too large and the keys strictly ascend.
pub proof fn key_sets_that_are_written(keys: Seq<Seq<u8>>, max: nat, tag: u16)
    ensures
        control::keys_bytes(keys, max, tag) is Ok <==> keys.len() <= max && (forall|i: int|
            0 <= i < keys.len() - 1 ==> bytes::before(#[trigger] keys[i], keys[i + 1])),
{
    if control::keys_ascend(keys) {
        assert forall|i: int| 0 <= i < keys.len() - 1 implies bytes::before(
            #[trigger] keys[i],
            keys[i + 1],
        ) by {
            assert(control::step_up(keys, i));
        }
    }
    if forall|i: int| 0 <= i < keys.len() - 1 ==> bytes::before(#[trigger] keys[i], keys[i + 1]) {
        assert forall|i: int| 0 <= i < keys.len() - 1 implies #[trigger] control::step_up(
            keys,
            i,
        ) by {
            assert(bytes::before(keys[i], keys[i + 1]));
        }
    }
}

/// A binding is accepted, but for its addresses and its sets of keys, exactly where the
/// organisation has a name, it has at most eight pins, its quorum is possible, it ends behind
/// its beginning, and only a first revision refers to nothing.
pub proof fn bindings_that_are_accepted(b: BindingView)
    ensures
        b.fault() is None <==> {
            &&& text::tenant_fault(control::binding_tag::TENANT, b.tenant) is None
            &&& b.pins.len() <= 8
            &&& b.roster.len() == 0 ==> b.threshold == 0
            &&& b.roster.len() > 0 ==> 1 <= b.threshold && b.threshold <= b.roster.len()
            &&& b.issued_at < b.expires_at
            &&& b.revision == 0
                ==> (forall|i: int| 0 <= i < b.previous.len() ==> b.previous[i] == 0)
                && (forall|i: int| 0 <= i < b.operation_id.len() ==> b.operation_id[i] == 0)
            &&& b.revision > 0 ==> exists|i: int| 0 <= i < b.previous.len() && b.previous[i] != 0
        },
{
}

/// What is written of a binding is at most eight pins and at most sixteen controllers, and
/// every binding that is read could be written.
pub proof fn a_binding_is_read_as_it_is_written(body: Seq<u8>)
    requires
        control::binding_of(body) is Ok,
    ensures
        ({
            let b = control::binding_of(body)->Ok_0;
            &&& b.fault() is None
            &&& control::urls_bytes(b.urls, control::binding_tag::URLS) is Ok
            &&& control::keys_bytes(b.pins, 8, control::binding_tag::PINS) is Ok
            &&& control::keys_bytes(b.roster, 16, control::binding_tag::ROSTER) is Ok
            &&& b.roster.len() <= 16
        }),
{
}

/// A binding is signed only with the key that it names.
pub proof fn a_binding_is_signed_with_its_own_key(
    b: BindingView,
    key: Seq<u8>,
    signature: Option<Seq<u8>>,
)
    ensures
        control::signed_binding(b, key, signature) is Ok <==> key == b.lease_public
            && signature is Some && control::binding_bytes(b) is Ok,
        control::signed_binding(b, key, signature) matches Ok(out) ==> out == signature->0
            + control::binding_bytes(b)->Ok_0,
{
}

/// A binding opens under an anchor exactly where it has 64 bytes to 64 kibibytes, is signed,
/// can be read behind the signature, and names the anchor as its key.
pub proof fn bindings_that_are_opened(b: Seq<u8>, anchor: Seq<u8>, signed: bool)
    ensures
        control::opened_binding(b, anchor, signed) is Ok <==> {
            &&& 64 <= b.len() <= 65_536
            &&& signed
            &&& control::binding_of(b.skip(64)) matches Ok(x) && x.lease_public == anchor
        },
        control::opened_binding(b, anchor, signed) matches Ok(x) ==> control::binding_of(b.skip(64))
            == Ok::<BindingView, FormatError>(x),
        64 <= b.len() <= 65_536 && !signed ==> control::opened_binding(b, anchor, signed) == Err::<
            BindingView,
            FormatError,
        >(FormatError::BadHeaderSignature),
        64 <= b.len() <= 65_536 && signed && control::binding_of(b.skip(64)) is Err
            ==> control::opened_binding(b, anchor, signed) == control::binding_of(b.skip(64)),
        64 <= b.len() <= 65_536 ==> control::peeked_binding(b) == control::binding_of(b.skip(64)),
        b.len() < 64 || b.len() > 65_536 ==> control::peeked_binding(b) == Err::<
            BindingView,
            FormatError,
        >(FormatError::BadFieldLength { tag: 0, len: b.len() as usize })
            && control::opened_binding(b, anchor, signed) == control::peeked_binding(b),
{
}

/// A receipt opens exactly where it has 64 bytes to 64 kibibytes, is signed, and can be read
/// behind the signature.
pub proof fn receipts_that_are_opened(b: Seq<u8>, signed: bool)
    ensures
        64 <= b.len() <= 65_536 && signed ==> control::opened_receipt(b, signed)
            == control::receipt_of(b.skip(64)),
        64 <= b.len() <= 65_536 && !signed ==> control::opened_receipt(b, signed) == Err::<
            ReceiptView,
            FormatError,
        >(FormatError::BadHeaderSignature),
        b.len() < 64 || b.len() > 65_536 ==> control::opened_receipt(b, signed) == Err::<
            ReceiptView,
            FormatError,
        >(FormatError::BadFieldLength { tag: 0, len: b.len() as usize }),
{
}

/// An order is accepted, but for its payload, exactly where the organisation has a name and it
/// lasts at least a second and at most a day.
pub proof fn orders_that_are_accepted(q: RequestView)
    ensures
        q.fault() is None <==> text::tenant_fault(control::request_tag::TENANT, q.tenant) is None
            && 1 <= q.expires_at - q.issued_at <= 86_400,
{
}

/// A receipt is accepted exactly where its reason has at most 512 characters, all of them safe.
pub proof fn receipts_that_are_accepted(d: ReceiptView)
    ensures
        d.fault() is None <==> d.reason.len() <= 512 && text::unsafe_fault(
            control::receipt_tag::REASON,
            d.reason,
        ) is None,
{
}

/// A transfer is accepted exactly where it leads to the next epoch, ends behind its beginning,
/// and holds one byte to 64 kibibytes of a binding.
pub proof fn transfers_that_are_accepted(t: TransferView)
    ensures
        t.fault() is None <==> t.to_epoch == t.from_epoch + 1 && t.issued_at < t.expires_at && 1
            <= t.binding.len() <= 65_536,
{
}

/// What is read was accepted.
pub proof fn what_is_read_was_accepted(body: Seq<u8>)
    ensures
        control::request_of(body) matches Ok(q) ==> q.fault() is None && control::payload_bytes(
            q.payload,
        ) is Ok,
        control::receipt_of(body) matches Ok(d) ==> d.fault() is None,
        control::transfer_of(body) matches Ok(t) ==> t.fault() is None,
{
}

/// The kinds of order have their numbers, and a server is decommissioned into one of two
/// states: stopped, or an archive.
pub proof fn kinds_of_orders(p: PayloadView, urls: Seq<Seq<char>>, keys: Seq<Seq<u8>>, n: u8)
    ensures
        (PayloadView::SetEndpoints { urls, pins: keys }).kind() == 1,
        PayloadView::SetDurability(Durability::Local).kind() == 2,
        (PayloadView::SetRoster { keys, threshold: n }).kind() == 3,
        PayloadView::SetRecovery(Recovery::Package).kind() == 4,
        p is Decommission <==> p.kind() == 5,
        p is AddAuthor <==> p.kind() == 6,
        p is RemoveAuthor <==> p.kind() == 7,
        p is SetEndpoints <==> p.kind() == 1,
        p is SetDurability <==> p.kind() == 2,
        p is SetRoster <==> p.kind() == 3,
        p is SetRecovery <==> p.kind() == 4,
        control::payload_bytes(p) is Ok ==> (p matches PayloadView::Decommission { status, reason }
            ==> (status == Status::Stopped || status == Status::ArchiveOnly) && reason.len() <= 512
            && text::unsafe_fault(2, reason) is None),
        p matches PayloadView::Decommission { status, reason } && (status == Status::Serving
            || status == Status::Transferred) ==> control::payload_bytes(p) is Err,
        p matches PayloadView::SetEndpoints { urls, pins } ==> (control::payload_bytes(p) is Ok
            ==> control::urls_bytes(urls, 1) is Ok && control::keys_bytes(pins, 8, 2) is Ok),
        p matches PayloadView::SetRoster { keys, threshold } ==> (control::payload_bytes(p) is Ok
            ==> control::keys_bytes(keys, 16, 1) is Ok),
{
}

/// The numbers under which the choices of a server are written.
pub proof fn numbers_of_choices(v: u8)
    ensures
        Durability::Local.number() == 0 && Durability::Mirrored.number() == 1
            && Durability::Witnessed.number() == 2,
        Recovery::Undeclared.number() == 0 && Recovery::Package.number() == 1
            && Recovery::NotRecoverable.number() == 2,
        Status::Serving.number() == 0 && Status::Stopped.number() == 1
            && Status::ArchiveOnly.number() == 2 && Status::Transferred.number() == 3,
        Outcome::Committed.number() == 1 && Outcome::Rejected.number() == 2
            && Outcome::PendingDurability.number() == 3 && Outcome::IdConflict.number() == 4
            && Outcome::StaleRevision.number() == 5,
        OldLeases::Honour.number() == 0 && OldLeases::RejectAfterTransition.number() == 1,
        match Durability::numbered(v) {
            Some(x) => x.number() == v,
            None => v > 2,
        },
        match Recovery::numbered(v) {
            Some(x) => x.number() == v,
            None => v > 2,
        },
        match Status::numbered(v) {
            Some(x) => x.number() == v,
            None => v > 3,
        },
        match Outcome::numbered(v) {
            Some(x) => x.number() == v,
            None => v == 0 || v > 5,
        },
        match OldLeases::numbered(v) {
            Some(x) => x.number() == v,
            None => v > 1,
        },
{
}

/// A choice is one byte, and a number of its kind.
pub proof fn bytes_that_hold_a_choice(tag: u16, v: Seq<u8>)
    ensures
        Durability::fault(tag, v) is None <==> v.len() == 1 && v[0] <= 2,
        Recovery::fault(tag, v) is None <==> v.len() == 1 && v[0] <= 2,
        Status::fault(tag, v) is None <==> v.len() == 1 && v[0] <= 3,
        Outcome::fault(tag, v) is None <==> v.len() == 1 && 1 <= v[0] <= 5,
        OldLeases::fault(tag, v) is None <==> v.len() == 1 && v[0] <= 1,
{
}

/// What is accepted is written, where its fields fit; what is not is not.
pub proof fn what_is_accepted_is_written(
    b: BindingView,
    q: RequestView,
    d: ReceiptView,
    t: TransferView,
)
    ensures
        control::binding_bytes(b) is Ok <==> b.fault() is None && (control::urls_bytes(
            b.urls,
            8,
        ) matches Ok(urls) && (control::keys_bytes(b.pins, 8, 9) matches Ok(pins) && (
        control::keys_bytes(b.roster, 16, 13) matches Ok(roster) && tlv::sealed(
            b.recs(urls, pins, roster),
        ) is Ok))),
        control::request_bytes(q) is Ok <==> q.fault() is None && (control::payload_bytes(
            q.payload,
        ) matches Ok(p) && tlv::sealed(q.recs(p)) is Ok),
        control::receipt_bytes(d) is Ok <==> d.fault() is None && tlv::sealed(d.recs()) is Ok,
        control::transfer_bytes(t) is Ok <==> t.fault() is None && tlv::sealed(t.recs()) is Ok,
{
}

/// A receipt is signed exactly where it can be written and there is a signature.
pub proof fn receipts_that_are_signed(d: ReceiptView, signature: Option<Seq<u8>>)
    ensures
        control::signed_receipt(d, signature) is Ok <==> signature is Some
            && control::receipt_bytes(d) is Ok,
        control::signed_receipt(d, signature) matches Ok(out) ==> out == signature->0
            + control::receipt_bytes(d)->Ok_0,
{
}

/// A first signature is put in front exactly where the body can be written and there is one.
pub proof fn first_signatures(
    body: Result<Seq<u8>, FormatError>,
    key: Seq<u8>,
    signature: Option<Seq<u8>>,
)
    ensures
        control::first_signed(body, key, signature) is Ok <==> body is Ok && signature is Some,
        control::first_signed(body, key, signature) matches Ok(out) ==> out == seq![1u8] + key
            + signature->0 + body->Ok_0,
{
    if let Some(s) = signature {
        let one = seq![(key, s)];
        assert(one.drop_last() =~= Seq::empty());
        assert(control::in_order(Seq::<SignatureView>::empty()) =~= Seq::empty());
        assert(control::in_order(one) =~= one);
        assert(one.drop_first() =~= Seq::empty());
        assert(control::signatures_wire(Seq::<SignatureView>::empty()) =~= Seq::empty());
        assert(control::signers_of(one).no_duplicates());
        if let Ok(b) = body {
            assert(seq![1u8] + control::signatures_wire(one) + b =~= seq![1u8] + key + s + b);
        }
    }
}

/// An envelope is sealed exactly where it has one to sixteen signatures of different keys: how
/// many there are, the signatures in the order of their keys, and the body.
pub proof fn envelopes_that_are_sealed(body: Seq<u8>, ss: Seq<SignatureView>)
    ensures
        control::envelope(body, ss) is Ok <==> 1 <= ss.len() <= 16 && (forall|i: int, j: int|
            0 <= i < j < ss.len() ==> (#[trigger] ss[i]).0 != (#[trigger] ss[j]).0),
        control::envelope(body, ss) matches Ok(b) ==> b[0] == ss.len() && b == seq![b[0]]
            + control::signatures_wire(control::in_order(ss)) + body,
{
    let keys = control::signers_of(ss);
    if keys.no_duplicates() {
        assert forall|i: int, j: int| 0 <= i < j < ss.len() implies (#[trigger] ss[i]).0 != (
        #[trigger] ss[j]).0 by {
            assert(keys[i] != keys[j]);
        }
    }
    if forall|i: int, j: int|
        0 <= i < j < ss.len() ==> (#[trigger] ss[i]).0 != (#[trigger] ss[j]).0 {
        assert forall|i: int, j: int|
            0 <= i < keys.len() && 0 <= j < keys.len() && i != j implies keys[i] != keys[j] by {
            assert(keys[i] == ss[i].0 && keys[j] == ss[j].0);
            if i < j {
                assert(ss[i].0 != ss[j].0);
            } else {
                assert(ss[j].0 != ss[i].0);
            }
        }
    }
}

/// Signatures stand one behind the other: the key and what it made.
pub proof fn signatures_are_written_one_by_one(
    s: SignatureView,
    a: Seq<SignatureView>,
    b: Seq<SignatureView>,
)
    ensures
        control::signatures_wire(Seq::empty()).len() == 0,
        control::signatures_wire(seq![s]) == s.0 + s.1,
        control::signatures_wire(a + b) == control::signatures_wire(a) + control::signatures_wire(
            b,
        ),
    decreases a.len(),
{
    assert(seq![s].drop_first() =~= Seq::empty());
    assert(control::signatures_wire(Seq::<SignatureView>::empty()) =~= Seq::empty());
    assert(control::signatures_wire(seq![s]) =~= s.0 + s.1);
    if a.len() == 0 {
        assert(a + b =~= b);
        assert(control::signatures_wire(a + b) =~= control::signatures_wire(a)
            + control::signatures_wire(b));
    } else {
        signatures_are_written_one_by_one(s, a.drop_first(), b);
        assert((a + b).drop_first() =~= a.drop_first() + b);
        assert(control::signatures_wire(a + b) =~= control::signatures_wire(a)
            + control::signatures_wire(b));
    }
}

/// Addresses stand one behind the other, each behind its length in two bytes.
pub proof fn addresses_are_written_one_by_one(
    url: Seq<char>,
    a: Seq<Seq<char>>,
    b: Seq<Seq<char>>,
)
    ensures
        control::urls_wire(Seq::empty()).len() == 0,
        control::urls_wire(seq![url]) == spec_u16_to_le_bytes(encode_utf8(url).len() as u16)
            + encode_utf8(url),
        control::urls_wire(a + b) == control::urls_wire(a) + control::urls_wire(b),
        control::urls_bytes(a, 0) matches Ok(out) ==> out == control::urls_wire(a),
    decreases a.len(),
{
    assert(seq![url].drop_first() =~= Seq::empty());
    assert(control::urls_wire(Seq::<Seq<char>>::empty()) =~= Seq::empty());
    assert(control::urls_wire(seq![url]) =~= spec_u16_to_le_bytes(encode_utf8(url).len() as u16)
        + encode_utf8(url));
    if a.len() == 0 {
        assert(a + b =~= b);
        assert(control::urls_wire(a + b) =~= control::urls_wire(a) + control::urls_wire(b));
    } else {
        addresses_are_written_one_by_one(url, a.drop_first(), b);
        assert((a + b).drop_first() =~= a.drop_first() + b);
        assert(control::urls_wire(a + b) =~= control::urls_wire(a) + control::urls_wire(b));
    }
}

/// A set of keys is read exactly where it is whole keys of 32 bytes, not too many, and they
/// strictly ascend.
pub proof fn key_sets_that_are_read(b: Seq<u8>, max: nat, tag: u16)
    ensures
        control::keys_of(b, max, tag) matches Ok(keys) ==> {
            &&& b.len() == 32 * keys.len()
            &&& control::keys_bytes(keys, max, tag) == Ok::<Seq<u8>, FormatError>(b)
        },
{
    if control::keys_of(b, max, tag) is Ok {
        bytes::laws::pieces_of_a_length(b, 32, 0);
        bytes::joined_chunks(b, 32);
    }
}

/// What is signed is the body under its label, where it can be written, and a signature of a
/// document of 64 bytes to 64 kibibytes covers what is behind it.
pub proof fn what_is_signed(
    label: Label,
    body: Result<Seq<u8>, FormatError>,
    b: Seq<u8>,
    key: Seq<u8>,
)
    ensures
        control::transcribed(label, body) is Ok <==> body is Ok,
        control::transcribed(label, body) matches Ok(t) ==> t.label == label && body == Ok::<
            Seq<u8>,
            FormatError,
        >(t.body),
        control::signed_claim(label, b, key) is Ok <==> 64 <= b.len() <= 65_536,
        control::signed_claim(label, b, key) matches Ok(c) ==> c.key == key && c.signature
            == b.take(64) && c.transcript.label == label && c.transcript.body == b.skip(64),
{
}

/// An order and a transfer are signed once more exactly where they can be opened, the key has
/// not signed yet, there is a signature, and there are not sixteen already.
pub proof fn what_is_signed_once_more(
    b: Seq<u8>,
    held: Seq<bool>,
    key: Seq<u8>,
    signature: Option<Seq<u8>>,
)
    ensures
        control::cosigned_request(b, held, key, signature) is Ok <==> {
            &&& control::opened_request(b, held, Seq::empty()) is Ok
            &&& !control::opened_request(b, held, Seq::empty())->Ok_0.signers.contains(key)
            &&& signature is Some
            &&& b[0] < 16
        },
        control::cosigned_transfer(b, held, key, signature) is Ok <==> (control::opened_transfer(
            b,
            held,
        ) matches Ok((t, signers)) && !signers.contains(key) && signature is Some && b[0] < 16),
{
    if let Ok((ss, body)) = control::enveloped(b) {
        control::signatures_in_counts(b.skip(1), b[0] as nat);
        control::no_key_twice(control::signers_of(ss));
        let keys = control::signers_of(ss);
        assert(keys.contains(key) <==> exists|i: int|
            0 <= i < ss.len() && (#[trigger] ss[i]).0 == key) by {
            if keys.contains(key) {
                let i = keys.index_of(key);
                assert(ss[i].0 == key);
            }
            if exists|i: int| 0 <= i < ss.len() && (#[trigger] ss[i]).0 == key {
                let i = choose|i: int| 0 <= i < ss.len() && (#[trigger] ss[i]).0 == key;
                assert(keys[i] == key);
            }
        }
        let r = match control::request_of(body) {
            Err(e) => Some(e),
            Ok(_) => None,
        };
        let t = match control::transfer_of(body) {
            Err(e) => Some(e),
            Ok(_) => None,
        };
        who_may_sign_too(ss, body, held, r, key, signature);
        who_may_sign_too(ss, body, held, t, key, signature);
    }
}

/// The order of a kind is read from one value or two, as the kind has it, and only from values
/// that could be written.
pub proof fn what_an_order_is_read_from(kind: u8, first: Seq<u8>, second: Option<Seq<u8>>)
    ensures
        ({
            let r = control::payload_in(kind, first, second);
            &&& kind == 0 || kind > 7 ==> r is Err
            &&& r matches Ok(p) ==> p.kind() == kind
            &&& kind == 1 || kind == 3 || kind == 5 ==> (second is None ==> r is Err)
            &&& kind == 2 || kind == 4 || kind == 6 || kind == 7 ==> (second is Some ==> r is Err)
            &&& kind == 1 && second is Some ==> (r is Ok <==> control::urls_of(first, 1) is Ok
                && control::keys_of(second->0, 8, 2) is Ok)
            &&& kind == 2 && second is None ==> (r is Ok <==> first.len() == 1 && first[0] <= 2)
            &&& kind == 3 && second is Some ==> (r is Ok <==> control::keys_of(first, 16, 1) is Ok
                && second->0.len() == 1)
            &&& kind == 4 && second is None ==> (r is Ok <==> first.len() == 1 && first[0] <= 2)
            &&& kind == 5 && second is Some ==> (r is Ok <==> first.len() == 1 && (first[0] == 1
                || first[0] == 2) && valid_utf8(second->0) && decode_utf8(second->0).len() <= 512
                && text::unsafe_fault(2, decode_utf8(second->0)) is None)
            &&& (kind == 6 || kind == 7) && second is None ==> (r is Ok <==> first.len() == 32)
            &&& r matches Ok(PayloadView::SetEndpoints { urls, pins })
                ==> control::urls_of(first, 1)
                == Ok::<Seq<Seq<char>>, FormatError>(urls) && control::keys_of(second->0, 8, 2)
                == Ok::<Seq<Seq<u8>>, FormatError>(pins)
            &&& r matches Ok(PayloadView::SetDurability(d)) ==> d.number() == first[0]
            &&& r matches Ok(PayloadView::SetRoster { keys, threshold }) ==> control::keys_of(
                first,
                16,
                1,
            ) == Ok::<Seq<Seq<u8>>, FormatError>(keys) && threshold == second->0[0]
            &&& r matches Ok(PayloadView::SetRecovery(x)) ==> x.number() == first[0]
            &&& r matches Ok(PayloadView::Decommission { status, reason }) ==> status.number()
                == first[0] && reason == decode_utf8(second->0)
            &&& r matches Ok(PayloadView::AddAuthor(key)) ==> key == first
            &&& r matches Ok(PayloadView::RemoveAuthor(key)) ==> key == first
        }),
{
}

/// Which orders are written: every setting of a choice and every change of an author, where the
/// fields fit.
pub proof fn orders_that_are_written(p: PayloadView)
    ensures
        p matches PayloadView::SetDurability(d) ==> control::payload_bytes(p) == Ok::<
            Seq<u8>,
            FormatError,
        >(tlv::wire(seq![(1u16, seq![d.number()])])),
        p matches PayloadView::SetRecovery(x) ==> control::payload_bytes(p) == Ok::<
            Seq<u8>,
            FormatError,
        >(tlv::wire(seq![(1u16, seq![x.number()])])),
        p matches PayloadView::AddAuthor(key) ==> (key.len() == 32 ==> control::payload_bytes(p)
            == Ok::<Seq<u8>, FormatError>(tlv::wire(seq![(1u16, key)]))),
        p matches PayloadView::RemoveAuthor(key) ==> (key.len() == 32 ==> control::payload_bytes(p)
            == Ok::<Seq<u8>, FormatError>(tlv::wire(seq![(1u16, key)]))),
        p matches PayloadView::Decommission { status, reason } ==> ((status == Status::Stopped
            || status
                == Status::ArchiveOnly) && reason.len() <= 512 && text::unsafe_fault(2, reason)
            is None ==> control::payload_bytes(p) == Ok::<Seq<u8>, FormatError>(
            tlv::wire(seq![(1u16, seq![status.number()]), (2u16, encode_utf8(reason))]),
        )),
        p matches PayloadView::SetRoster { keys, threshold } ==> (keys.len() <= 16
            && bytes::all_sized(keys, 32) && control::keys_bytes(keys, 16, 1) is Ok
            ==> control::payload_bytes(p) == Ok::<Seq<u8>, FormatError>(
            tlv::wire(seq![(1u16, bytes::joined(keys)), (2u16, seq![threshold])]),
        )),
        p matches PayloadView::SetEndpoints { urls, pins } ==> (control::urls_bytes(urls, 1) is Ok
            && bytes::all_sized(pins, 32) && control::keys_bytes(pins, 8, 2) is Ok
            ==> control::payload_bytes(p) == Ok::<Seq<u8>, FormatError>(
            tlv::wire(seq![(1u16, control::urls_wire(urls)), (2u16, bytes::joined(pins))]),
        )),
{
    match p {
        PayloadView::SetDurability(d) => {
            assert(control::pair(seq![d.number()], None) =~= seq![(1u16, seq![d.number()])]);
        },
        PayloadView::SetRecovery(x) => {
            assert(control::pair(seq![x.number()], None) =~= seq![(1u16, seq![x.number()])]);
        },
        PayloadView::AddAuthor(key) => {
            assert(control::pair(key, None) =~= seq![(1u16, key)]);
        },
        PayloadView::RemoveAuthor(key) => {
            assert(control::pair(key, None) =~= seq![(1u16, key)]);
        },
        PayloadView::Decommission { status, reason } => {
            text::utf8_len(reason);
            let b = encode_utf8(reason);
            assert(control::pair(seq![status.number()], Some(b)) =~= seq![
                (1u16, seq![status.number()]),
                (2u16, b),
            ]);
        },
        PayloadView::SetRoster { keys, threshold } => {
            if keys.len() <= 16 && bytes::all_sized(keys, 32) {
                length_of_joined_keys(keys);
            }
            assert(control::pair(bytes::joined(keys), Some(seq![threshold])) =~= seq![
                (1u16, bytes::joined(keys)),
                (2u16, seq![threshold]),
            ]);
        },
        PayloadView::SetEndpoints { urls, pins } => {
            if control::urls_bytes(urls, 1) is Ok && bytes::all_sized(pins, 32)
                && control::keys_bytes(pins, 8, 2) is Ok {
                control::urls_wire_len(urls, 1);
                length_of_joined_keys(pins);
            }
            assert(control::pair(control::urls_wire(urls), Some(bytes::joined(pins))) =~= seq![
                (1u16, control::urls_wire(urls)),
                (2u16, bytes::joined(pins)),
            ]);
        },
    }
}

proof fn length_of_joined_keys(keys: Seq<Seq<u8>>)
    requires
        bytes::all_sized(keys, 32),
    ensures
        bytes::joined(keys).len() == 32 * keys.len(),
    decreases keys.len(),
{
    if keys.len() > 0 {
        let rest = keys.drop_first();
        assert forall|i: int| 0 <= i < rest.len() implies (#[trigger] rest[i]).len() == 32 by {
            assert(rest[i] == keys[i + 1]);
        }
        length_of_joined_keys(rest);
        assert(keys[0].len() == 32);
    }
}

/// Where the fields of a binding stand, and which of them have to be there.
pub proof fn where_the_fields_of_a_binding_stand(rs: Seq<Rec>)
    ensures
        control::binding_in(rs) matches Ok(v) ==> {
            &&& tlv::lookup(rs, 2) matches Some(b) && v.tenant == decode_utf8(b)
            &&& tlv::lookup(rs, 3) == Some(v.authority_id)
            &&& tlv::lookup(rs, 4) matches Some(b) && v.epoch == bytes::num64(b)
            &&& tlv::lookup(rs, 5) matches Some(b) && v.revision == bytes::num64(b)
            &&& tlv::lookup(rs, 6) == Some(v.lease_public)
            &&& tlv::lookup(rs, 7) == Some(v.sealing_public)
            &&& tlv::lookup(rs, 8) matches Some(b) && v.urls == control::urls_of(b, 8)->Ok_0
            &&& tlv::lookup(rs, 9) matches Some(b) && v.pins == control::keys_of(b, 8, 9)->Ok_0
            &&& tlv::lookup(rs, 10) matches Some(b) && v.durability == Durability::numbered(b[0])->0
            &&& tlv::lookup(rs, 11) matches Some(b) && v.recovery == Recovery::numbered(b[0])->0
            &&& tlv::lookup(rs, 12) matches Some(b) && v.status == Status::numbered(b[0])->0
            &&& tlv::lookup(rs, 13) matches Some(b) && v.roster == control::keys_of(b, 16, 13)->Ok_0
            &&& tlv::lookup(rs, 14) matches Some(b) && v.threshold == b[0]
            &&& tlv::lookup(rs, 15) == Some(v.operation_id)
            &&& tlv::lookup(rs, 16) == Some(v.previous)
            &&& tlv::lookup(rs, 17) matches Some(b) && v.issued_at == bytes::num64s(b)
            &&& tlv::lookup(rs, 18) matches Some(b) && v.expires_at == bytes::num64s(b)
            &&& tlv::lookup(rs, 1) matches Some(b) && b[0] == 1
        },
        control::binding_in(rs) is Ok <==> {
            &&& tlv::lookup(rs, 2) is Some
            &&& tlv::lookup(rs, 3) is Some
            &&& tlv::lookup(rs, 4) is Some
            &&& tlv::lookup(rs, 5) is Some
            &&& tlv::lookup(rs, 6) is Some
            &&& tlv::lookup(rs, 7) is Some
            &&& tlv::lookup(rs, 8) is Some
            &&& tlv::lookup(rs, 9) is Some
            &&& tlv::lookup(rs, 10) is Some
            &&& tlv::lookup(rs, 11) is Some
            &&& tlv::lookup(rs, 12) is Some
            &&& tlv::lookup(rs, 13) is Some
            &&& tlv::lookup(rs, 14) is Some
            &&& tlv::lookup(rs, 15) is Some
            &&& tlv::lookup(rs, 16) is Some
            &&& tlv::lookup(rs, 17) is Some
            &&& tlv::lookup(rs, 18) is Some
            &&& tlv::lookup(rs, 1) == Some(seq![1u8])
        },
{
}

/// Where the fields of an order stand, and which of them have to be there.
pub proof fn where_the_fields_of_an_order_stand(rs: Seq<Rec>)
    ensures
        control::request_in(rs) matches Ok(v) ==> {
            &&& tlv::lookup(rs, 2) matches Some(b) && v.tenant == decode_utf8(b)
            &&& tlv::lookup(rs, 3) == Some(v.authority_id)
            &&& tlv::lookup(rs, 4) matches Some(b) && v.epoch == bytes::num64(b)
            &&& tlv::lookup(rs, 5) == Some(v.operation_id)
            &&& tlv::lookup(rs, 7) matches Some(b) && v.expected_revision == bytes::num64(b)
            &&& tlv::lookup(rs, 8) matches Some(b) && v.issued_at == bytes::num64s(b)
            &&& tlv::lookup(rs, 9) matches Some(b) && v.expires_at == bytes::num64s(b)
            &&& tlv::lookup(rs, 1) matches Some(b) && b[0] == 1
            &&& tlv::lookup(rs, 6) matches Some(b) && b[0] == 1
            &&& tlv::lookup(rs, 10) is Some
            &&& tlv::lookup(rs, 11) is Some
            &&& control::payload_of(tlv::lookup(rs, 10)->0[0], tlv::lookup(rs, 11)->0)
                == Ok::<PayloadView, FormatError>(v.payload)
        },
        control::request_in(rs) is Ok <==> {
            &&& tlv::lookup(rs, 2) is Some
            &&& tlv::lookup(rs, 3) is Some
            &&& tlv::lookup(rs, 4) is Some
            &&& tlv::lookup(rs, 5) is Some
            &&& tlv::lookup(rs, 7) is Some
            &&& tlv::lookup(rs, 8) is Some
            &&& tlv::lookup(rs, 9) is Some
            &&& tlv::lookup(rs, 10) is Some
            &&& tlv::lookup(rs, 11) is Some
            &&& tlv::lookup(rs, 1) == Some(seq![1u8])
            &&& tlv::lookup(rs, 6) == Some(seq![1u8])
            &&& control::payload_of(tlv::lookup(rs, 10)->0[0], tlv::lookup(rs, 11)->0) is Ok
        },
{
}

/// Where the fields of a receipt stand, and which of them have to be there.
pub proof fn where_the_fields_of_a_receipt_stand(rs: Seq<Rec>)
    ensures
        control::receipt_in(rs) matches Ok(v) ==> {
            &&& tlv::lookup(rs, 2) == Some(v.request_hash)
            &&& tlv::lookup(rs, 3) == Some(v.operation_id)
            &&& tlv::lookup(rs, 4) matches Some(b) && v.outcome == Outcome::numbered(b[0])->0
            &&& tlv::lookup(rs, 5) matches Some(b) && v.revision == bytes::num64(b)
            &&& tlv::lookup(rs, 6) == Some(v.commit)
            &&& tlv::lookup(rs, 7) matches Some(b) && v.epoch == bytes::num64(b)
            &&& tlv::lookup(rs, 8) matches Some(b) && v.durability == Durability::numbered(b[0])->0
            &&& tlv::lookup(rs, 9) matches Some(b) && v.reason == decode_utf8(b)
            &&& tlv::lookup(rs, 10) matches Some(b) && v.at == bytes::num64s(b)
            &&& tlv::lookup(rs, 1) matches Some(b) && b[0] == 1
        },
        control::receipt_in(rs) is Ok <==> {
            &&& tlv::lookup(rs, 2) is Some
            &&& tlv::lookup(rs, 3) is Some
            &&& tlv::lookup(rs, 4) is Some
            &&& tlv::lookup(rs, 5) is Some
            &&& tlv::lookup(rs, 6) is Some
            &&& tlv::lookup(rs, 7) is Some
            &&& tlv::lookup(rs, 8) is Some
            &&& tlv::lookup(rs, 9) is Some
            &&& tlv::lookup(rs, 10) is Some
            &&& tlv::lookup(rs, 1) == Some(seq![1u8])
        },
{
}

/// Where the fields of a transfer stand, and which of them have to be there.
pub proof fn where_the_fields_of_a_transfer_stand(rs: Seq<Rec>)
    ensures
        control::transfer_in(rs) matches Ok(v) ==> {
            &&& tlv::lookup(rs, 2) == Some(v.authority_id)
            &&& tlv::lookup(rs, 3) matches Some(b) && v.from_epoch == bytes::num64(b)
            &&& tlv::lookup(rs, 4) matches Some(b) && v.to_epoch == bytes::num64(b)
            &&& tlv::lookup(rs, 5) == Some(v.from_lease)
            &&& tlv::lookup(rs, 6) matches Some(b) && v.transition_at == bytes::num64s(b)
            &&& tlv::lookup(rs, 7) matches Some(b) && v.old_leases == OldLeases::numbered(b[0])->0
            &&& tlv::lookup(rs, 8) matches Some(b) && v.issued_at == bytes::num64s(b)
            &&& tlv::lookup(rs, 9) matches Some(b) && v.expires_at == bytes::num64s(b)
            &&& tlv::lookup(rs, 10) == Some(v.binding)
            &&& tlv::lookup(rs, 1) matches Some(b) && b[0] == 1
        },
        control::transfer_in(rs) is Ok <==> {
            &&& tlv::lookup(rs, 2) is Some
            &&& tlv::lookup(rs, 3) is Some
            &&& tlv::lookup(rs, 4) is Some
            &&& tlv::lookup(rs, 5) is Some
            &&& tlv::lookup(rs, 6) is Some
            &&& tlv::lookup(rs, 7) is Some
            &&& tlv::lookup(rs, 8) is Some
            &&& tlv::lookup(rs, 9) is Some
            &&& tlv::lookup(rs, 10) is Some
            &&& tlv::lookup(rs, 1) == Some(seq![1u8])
        },
{
}

} // verus!
