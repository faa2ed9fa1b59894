//! What a rule permits and what may be handed on, kind by kind.

use crate::access::QueueError;
use crate::action::{
    self, ActionDecisionView, ActionGrantView, ActionKind, ActionLeaseView, ActionRefusal,
    ActionRequestView, ArgsView, ConstraintView, Method, PendingActionView, RuleView,
};
use crate::bytes;
use crate::error::FormatError;
use crate::paths;
use crate::text;
use crate::tlv::{self, Rec};
use vstd::bytes::*;
use vstd::prelude::*;
use vstd::utf8::*;

verus! {

/// A push is within a rule exactly where it names the remote and the branch of the rule:
/// equality, not nesting.
pub proof fn a_push_names_the_remote_and_the_branch(
    rule: RuleView,
    remote: Seq<char>,
    branch: Seq<char>,
    want_remote: Seq<char>,
    want_branch: Seq<char>,
)
    requires
        rule.constraint == (ConstraintView::GitPush { remote, branch }),
    ensures
        ({
            let args = ArgsView::GitPush { remote: want_remote, branch: want_branch };
            let r = action::within(rule, args);
            &&& r is None <==> rule.kind == ActionKind::GitPush && want_remote == remote
                && want_branch == branch
            &&& rule.kind == ActionKind::GitPush && want_remote != remote ==> r == Some(
                ActionRefusal::NotEqual { limiter: "remote" },
            )
            &&& rule.kind == ActionKind::GitPush && want_remote == remote && want_branch != branch
                ==> r == Some(ActionRefusal::NotEqual { limiter: "branch" })
        }),
{
}

/// A removal is within a rule exactly where both paths stay inside the tree and the path lies
/// under the prefix.
pub proof fn a_removal_lies_under_the_prefix(rule: RuleView, prefix: Seq<char>, path: Seq<char>)
    requires
        rule.constraint == (ConstraintView::TreeRemove { prefix }),
    ensures
        ({
            let r = action::within(rule, ArgsView::TreeRemove { path });
            let sound = paths::tree_fault(3, prefix) is None && paths::tree_fault(3, path) is None;
            &&& r is None <==> rule.kind == ActionKind::TreeRemove && sound && paths::under(
                prefix,
                path,
            )
            &&& rule.kind == ActionKind::TreeRemove && !sound ==> r == Some(
                ActionRefusal::BadPath { limiter: "prefix" },
            )
            &&& rule.kind == ActionKind::TreeRemove && sound && !paths::under(prefix, path) ==> r
                == Some(ActionRefusal::OutsidePrefix { limiter: "prefix" })
        }),
{
}

/// A renaming is within a rule exactly where it leads from under the one prefix to under the
/// other, and every path stays inside the tree.
pub proof fn a_renaming_leads_from_prefix_to_prefix(
    rule: RuleView,
    from_prefix: Seq<char>,
    to_prefix: Seq<char>,
    from: Seq<char>,
    to: Seq<char>,
)
    requires
        rule.constraint == (ConstraintView::TreeRename { from_prefix, to_prefix }),
    ensures
        action::within(rule, ArgsView::TreeRename { from, to }) is None <==> {
            &&& rule.kind == ActionKind::TreeRename
            &&& paths::tree_fault(3, from_prefix) is None && paths::tree_fault(3, from) is None
            &&& paths::tree_fault(3, to_prefix) is None && paths::tree_fault(3, to) is None
            &&& paths::under(from_prefix, from)
            &&& paths::under(to_prefix, to)
        },
{
}

/// A request is within a rule exactly where it goes to the host of the rule, with one of its
/// methods, to a path under its prefix, and with a body of at most a mebibyte.
pub proof fn a_request_stays_with_the_host(
    rule: RuleView,
    host: Seq<char>,
    methods: Seq<Method>,
    path_prefix: Seq<char>,
    secret_ref: Option<Seq<char>>,
    want_host: Seq<char>,
    method: Method,
    path: Seq<char>,
    body_digest: Seq<u8>,
    body_len: u32,
)
    requires
        rule.constraint == (ConstraintView::HttpRequest { host, methods, path_prefix, secret_ref }),
    ensures
        ({
            let args = ArgsView::HttpRequest {
                host: want_host,
                method,
                path,
                body_digest,
                body_len,
            };
            let r = action::within(rule, args);
            let named = rule.kind == ActionKind::HttpRequest && want_host == host;
            let allowed = exists|i: int| 0 <= i < methods.len() && #[trigger] methods[i] == method;
            let sound = paths::http_fault(8, path_prefix) is None && paths::http_fault(8, path)
                is None;
            let inside = paths::under(path_prefix, path);
            &&& r is None <==> named && allowed && sound && inside && body_len <= 1_048_576
            &&& rule.kind == ActionKind::HttpRequest && want_host != host ==> r == Some(
                ActionRefusal::NotEqual { limiter: "host" },
            )
            &&& named && !allowed ==> r == Some(ActionRefusal::MethodNotAllowed)
            &&& named && allowed && !sound ==> r == Some(
                ActionRefusal::BadPath { limiter: "path_prefix" },
            )
            &&& named && allowed && sound && !inside ==> r == Some(
                ActionRefusal::OutsidePrefix { limiter: "path_prefix" },
            )
            &&& named && allowed && sound && inside && body_len > 1_048_576 ==> r == Some(
                ActionRefusal::BodyTooLarge { len: body_len },
            )
        }),
{
}

/// Of a view of limits and of arguments, whether they are for the same action.
pub open spec fn same_action(c: ConstraintView, a: ArgsView) -> bool {
    ||| c is GitPush && a is GitPush
    ||| c is TreeRemove && a is TreeRemove
    ||| c is TreeRename && a is TreeRename
    ||| c is HttpRequest && a is HttpRequest
}

/// Arguments for another action than the limits are for are refused, whatever they say; and so
/// is a rule that calls its action by another kind.
pub proof fn another_action_is_refused(rule: RuleView, args: ArgsView)
    ensures
        action::within(rule, args) == Some(ActionRefusal::WrongKind) <==> !same_action(
            rule.constraint,
            args,
        ) || rule.kind != args.kind(),
        action::within(rule, args) is None ==> same_action(rule.constraint, args) && rule.kind
            == args.kind() && rule.kind == rule.constraint.kind(),
{
}

/// How often a rule may be used, whether it may be handed on and whether it asks for consent
/// say nothing of what is within it.
pub proof fn what_is_within_depends_on_the_limits_alone(a: RuleView, b: RuleView, args: ArgsView)
    requires
        a.kind == b.kind,
        a.constraint == b.constraint,
    ensures
        action::within(a, args) == action::within(b, args),
{
}

/// What the body of a request holds, and the secret that a rule names, say nothing of whether
/// the request is within the rule.
pub proof fn the_digest_of_a_body_decides_nothing(
    rule: RuleView,
    host: Seq<char>,
    method: Method,
    path: Seq<char>,
    one: Seq<u8>,
    other: Seq<u8>,
    body_len: u32,
)
    ensures
        action::within(
            rule,
            ArgsView::HttpRequest { host, method, path, body_digest: one, body_len },
        ) == action::within(
            rule,
            ArgsView::HttpRequest { host, method, path, body_digest: other, body_len },
        ),
{
}

/// Uses are no more where the parent has no limit, or both have one and the child's is not
/// above the parent's.
pub open spec fn uses_are_no_more(child: u32, parent: u32) -> bool {
    parent == 0 || (1 <= child && child <= parent)
}

/// Whatever the kind of action, a rule is narrower only where it is for the same kind, the
/// parent may be handed on and asks for no consent, and its uses are no more.
pub proof fn what_every_narrower_rule_has(child: RuleView, parent: RuleView)
    ensures
        ({
            let r = action::wider(child, parent);
            &&& r is None ==> child.kind == parent.kind && parent.delegable && !parent.confirm
            &&& r is None ==> parent.max_uses == 0 || (child.max_uses != 0 && child.max_uses
                <= parent.max_uses)
            &&& child.kind != parent.kind ==> r == Some(ActionRefusal::WrongKind)
            &&& child.kind == parent.kind && parent.confirm ==> r == Some(
                ActionRefusal::ConfirmNotDelegable,
            )
            &&& child.kind == parent.kind && !parent.confirm && !parent.delegable ==> r == Some(
                ActionRefusal::NotDelegable,
            )
            &&& child.kind == parent.kind && !parent.confirm && parent.delegable
                && !uses_are_no_more(child.max_uses, parent.max_uses) ==> r == Some(
                ActionRefusal::MoreUses,
            )
            &&& r == Some(ActionRefusal::MoreUses) ==> !uses_are_no_more(
                child.max_uses,
                parent.max_uses,
            )
            &&& r == Some(ActionRefusal::NotDelegable) ==> !parent.delegable
            &&& r == Some(ActionRefusal::ConfirmNotDelegable) ==> parent.confirm
        }),
{
}

/// A rule may be handed on as far as its kind, its flags and its uses go.
pub open spec fn handable(child: RuleView, parent: RuleView) -> bool {
    child.kind == parent.kind && parent.delegable && !parent.confirm && uses_are_no_more(
        child.max_uses,
        parent.max_uses,
    )
}

/// A rule for pushes is narrower exactly where it may be handed on and names the same remote
/// and the same branch.
pub proof fn a_narrower_push(
    child: RuleView,
    parent: RuleView,
    remote: Seq<char>,
    branch: Seq<char>,
    parent_remote: Seq<char>,
    parent_branch: Seq<char>,
)
    requires
        child.constraint == (ConstraintView::GitPush { remote, branch }),
        parent.constraint == (ConstraintView::GitPush {
            remote: parent_remote,
            branch: parent_branch,
        }),
    ensures
        ({
            let r = action::wider(child, parent);
            &&& r is None <==> handable(child, parent) && remote == parent_remote && branch
                == parent_branch
            &&& handable(child, parent) && remote != parent_remote ==> r == Some(
                ActionRefusal::WiderLimiter { limiter: "remote" },
            )
            &&& handable(child, parent) && remote == parent_remote && branch != parent_branch ==> r
                == Some(ActionRefusal::WiderLimiter { limiter: "branch" })
        }),
{
}

/// A rule for removals is narrower exactly where it may be handed on and its prefix lies under
/// that of its parent.
pub proof fn a_narrower_removal(
    child: RuleView,
    parent: RuleView,
    prefix: Seq<char>,
    parent_prefix: Seq<char>,
)
    requires
        child.constraint == (ConstraintView::TreeRemove { prefix }),
        parent.constraint == (ConstraintView::TreeRemove { prefix: parent_prefix }),
    ensures
        ({
            let r = action::wider(child, parent);
            &&& r is None <==> handable(child, parent) && paths::under(parent_prefix, prefix)
            &&& handable(child, parent) && !paths::under(parent_prefix, prefix) ==> r == Some(
                ActionRefusal::WiderLimiter { limiter: "prefix" },
            )
        }),
{
}

/// A rule for renamings is narrower exactly where it may be handed on and each of its prefixes
/// lies under that of its parent.
pub proof fn a_narrower_renaming(
    child: RuleView,
    parent: RuleView,
    from_prefix: Seq<char>,
    to_prefix: Seq<char>,
    parent_from: Seq<char>,
    parent_to: Seq<char>,
)
    requires
        child.constraint == (ConstraintView::TreeRename { from_prefix, to_prefix }),
        parent.constraint == (ConstraintView::TreeRename {
            from_prefix: parent_from,
            to_prefix: parent_to,
        }),
    ensures
        ({
            let r = action::wider(child, parent);
            let from = paths::under(parent_from, from_prefix);
            let to = paths::under(parent_to, to_prefix);
            &&& r is None <==> handable(child, parent) && from && to
            &&& handable(child, parent) && !from ==> r == Some(
                ActionRefusal::WiderLimiter { limiter: "from_prefix" },
            )
            &&& handable(child, parent) && from && !to ==> r == Some(
                ActionRefusal::WiderLimiter { limiter: "to_prefix" },
            )
        }),
{
}

/// A rule for requests is narrower exactly where it may be handed on, goes to the same host,
/// has no method that its parent has not, keeps to a prefix under that of its parent, and names
/// the secret of its parent or none.
pub proof fn a_narrower_request(
    child: RuleView,
    parent: RuleView,
    host: Seq<char>,
    methods: Seq<Method>,
    path_prefix: Seq<char>,
    secret_ref: Option<Seq<char>>,
    parent_host: Seq<char>,
    parent_methods: Seq<Method>,
    parent_prefix: Seq<char>,
    parent_secret: Option<Seq<char>>,
)
    requires
        child.constraint
            == (ConstraintView::HttpRequest { host, methods, path_prefix, secret_ref }),
        parent.constraint == (ConstraintView::HttpRequest {
            host: parent_host,
            methods: parent_methods,
            path_prefix: parent_prefix,
            secret_ref: parent_secret,
        }),
    ensures
        ({
            let r = action::wider(child, parent);
            let subset = forall|m: Method| #[trigger] methods.contains(m)
                ==> parent_methods.contains(
                m,
            );
            let inside = paths::under(parent_prefix, path_prefix);
            let secret = secret_ref is None || (parent_secret is Some && secret_ref->0
                == parent_secret->0);
            &&& r is None <==> handable(child, parent) && host == parent_host && subset && inside
                && secret
            &&& handable(child, parent) && host != parent_host ==> r == Some(
                ActionRefusal::WiderLimiter { limiter: "host" },
            )
            &&& handable(child, parent) && host == parent_host && !subset ==> r == Some(
                ActionRefusal::WiderLimiter { limiter: "methods" },
            )
            &&& handable(child, parent) && host == parent_host && subset && !inside ==> r == Some(
                ActionRefusal::WiderLimiter { limiter: "path_prefix" },
            )
            &&& handable(child, parent) && host == parent_host && subset && inside && !secret ==> r
                == Some(ActionRefusal::SecretRefChanged)
        }),
{
    assert(action::methods_within(methods, parent_methods) <==> (forall|m: Method| #[trigger]
        methods.contains(m) ==> parent_methods.contains(m))) by {
        if action::methods_within(methods, parent_methods) {
            assert forall|m: Method| #[trigger] methods.contains(m) implies parent_methods.contains(
                m,
            ) by {
                let i = methods.index_of(m);
                assert(parent_methods.contains(methods[i]));
            }
        }
        if forall|m: Method| #[trigger] methods.contains(m) ==> parent_methods.contains(m) {
            assert forall|i: int| 0 <= i < methods.len() implies parent_methods.contains(
                #[trigger] methods[i],
            ) by {
                assert(methods.contains(methods[i]));
            }
        }
    }
}

/// No rule is narrower than one for another action.
pub proof fn rules_for_other_actions_are_not_compared(child: RuleView, parent: RuleView)
    requires
        child.constraint.kind() != parent.constraint.kind(),
    ensures
        action::wider(child, parent) is Some,
{
}

/// Whether a child may itself be handed on, or asks for consent, is not compared: a child may
/// be stricter or not.
pub proof fn the_flags_of_the_child_are_not_compared(
    child: RuleView,
    other: RuleView,
    parent: RuleView,
)
    requires
        child.kind == other.kind,
        child.constraint == other.constraint,
        child.max_uses == other.max_uses,
    ensures
        action::wider(child, parent) == action::wider(other, parent),
{
}

/// The numbers of the kinds of action and of the methods.
pub proof fn numbers_of_kinds_and_methods(kind: u16, method: u8)
    ensures
        ActionKind::GitPush.number() == 1 && ActionKind::TreeRemove.number() == 2,
        ActionKind::TreeRename.number() == 3 && ActionKind::HttpRequest.number() == 4,
        Method::Get.number() == 1 && Method::Head.number() == 2 && Method::Post.number() == 3,
        Method::Put.number() == 4 && Method::Patch.number() == 5 && Method::Delete.number() == 6,
        match ActionKind::numbered(kind) {
            Some(k) => k.number() == kind,
            None => kind == 0 || kind > 4,
        },
        match Method::numbered(method) {
            Some(m) => m.number() == method,
            None => method == 0 || method > 6,
        },
{
}

/// A list of methods is accepted exactly where it is not empty and its numbers strictly ascend,
/// so that none occurs twice.
pub proof fn method_lists_that_are_accepted(tag: u16, ms: Seq<Method>)
    ensures
        action::methods_fault(tag, ms) is None <==> ms.len() > 0 && (forall|i: int, j: int|
            0 <= i < j < ms.len() ==> (#[trigger] ms[i]).number() < (#[trigger] ms[j]).number()),
{
    methods_ascend(ms);
}

proof fn methods_ascend(ms: Seq<Method>)
    ensures
        action::methods_order_fault(ms) is None <==> (forall|i: int, j: int|
            0 <= i < j < ms.len() ==> (#[trigger] ms[i]).number() < (#[trigger] ms[j]).number()),
    decreases ms.len(),
{
    if ms.len() >= 2 {
        let rest = ms.drop_first();
        methods_ascend(rest);
        if action::methods_order_fault(ms) is None {
            assert forall|i: int, j: int| 0 <= i < j < ms.len() implies (#[trigger] ms[i]).number()
                < (#[trigger] ms[j]).number() by {
                if i > 0 {
                    assert(rest[i - 1] == ms[i] && rest[j - 1] == ms[j]);
                } else if j > 1 {
                    assert(rest[0] == ms[1] && rest[j - 1] == ms[j]);
                }
            }
        }
        if forall|i: int, j: int|
            0 <= i < j < ms.len() ==> (#[trigger] ms[i]).number() < (#[trigger] ms[j]).number() {
            assert(ms[0].number() < ms[1].number());
            assert forall|i: int, j: int| 0 <= i < j < rest.len() implies (
            #[trigger] rest[i]).number() < (#[trigger] rest[j]).number() by {
                assert(rest[i] == ms[i + 1] && rest[j] == ms[j + 1]);
            }
        }
    }
}

/// Limits are accepted exactly where every text in them has its form.
pub proof fn limits_that_are_accepted(c: ConstraintView)
    ensures
        action::constraint_fault(c) is None <==> match c {
            ConstraintView::GitPush { remote, branch } => paths::name_fault(1, remote) is None
                && paths::tree_fault(2, branch) is None,
            ConstraintView::TreeRemove { prefix } => paths::tree_fault(3, prefix) is None,
            ConstraintView::TreeRename { from_prefix, to_prefix } => paths::tree_fault(
                4,
                from_prefix,
            ) is None && paths::tree_fault(5, to_prefix) is None,
            ConstraintView::HttpRequest { host, methods, path_prefix, secret_ref } => {
                &&& paths::host_fault(6, host) is None
                &&& action::methods_fault(7, methods) is None
                &&& paths::http_fault(8, path_prefix) is None
                &&& secret_ref matches Some(s) ==> paths::reference_fault(9, s) is None
            },
        },
{
}

/// Arguments are accepted exactly where every text in them has its form and the body is at most
/// a mebibyte.
pub proof fn arguments_that_are_accepted(a: ArgsView)
    ensures
        action::args_fault(a) is None <==> match a {
            ArgsView::GitPush { remote, branch } => paths::name_fault(1, remote) is None
                && paths::tree_fault(2, branch) is None,
            ArgsView::TreeRemove { path } => paths::tree_fault(3, path) is None,
            ArgsView::TreeRename { from, to } => paths::tree_fault(4, from) is None
                && paths::tree_fault(5, to) is None,
            ArgsView::HttpRequest {
                host,
                method,
                path,
                body_digest,
                body_len,
            } => paths::host_fault(
                6,
                host,
            ) is None && paths::http_fault(8, path) is None && body_len <= 1_048_576,
        },
{
}

/// A rule is accepted exactly where it calls its action by the right kind and its limits are
/// accepted.
pub proof fn rules_that_are_accepted(r: RuleView)
    ensures
        action::rule_fault(r) is None <==> action::constraint_fault(r.constraint) is None
            && match r.constraint {
            ConstraintView::GitPush { .. } => r.kind == ActionKind::GitPush,
            ConstraintView::TreeRemove { .. } => r.kind == ActionKind::TreeRemove,
            ConstraintView::TreeRename { .. } => r.kind == ActionKind::TreeRename,
            ConstraintView::HttpRequest { .. } => r.kind == ActionKind::HttpRequest,
        },
{
}

/// Rules are accepted exactly where each is.
pub proof fn no_rule_at_fault(rules: Seq<RuleView>)
    ensures
        action::first_rule_fault(rules) is None <==> (forall|i: int|
            0 <= i < rules.len() ==> action::rule_fault(#[trigger] rules[i]) is None),
    decreases rules.len(),
{
    if rules.len() > 0 {
        let rest = rules.drop_first();
        no_rule_at_fault(rest);
        if action::first_rule_fault(rules) is None {
            assert forall|i: int| 0 <= i < rules.len() implies action::rule_fault(
                #[trigger] rules[i],
            ) is None by {
                if i > 0 {
                    assert(rest[i - 1] == rules[i]);
                }
            }
        }
        if forall|i: int| 0 <= i < rules.len() ==> action::rule_fault(#[trigger] rules[i]) is None {
            assert(action::rule_fault(rules[0]) is None);
            assert forall|i: int| 0 <= i < rest.len() implies action::rule_fault(
                #[trigger] rest[i],
            ) is None by {
                assert(rest[i] == rules[i + 1]);
            }
        }
    }
}

/// A grant of actions is accepted exactly where it has at most 32 rules, each is accepted, and
/// it does not end before it begins.
pub proof fn action_grants_that_are_accepted(g: ActionGrantView)
    ensures
        g.fault() is None <==> {
            &&& g.rules.len() <= 32
            &&& forall|i: int|
                0 <= i < g.rules.len() ==> action::rule_fault(#[trigger] g.rules[i]) is None
            &&& g.issued_at <= g.expires_at
        },
{
    no_rule_at_fault(g.rules);
}

/// A request for an action is accepted exactly where its kind is that of its arguments, which
/// are accepted, and its note is.
pub proof fn action_requests_that_are_accepted(v: ActionRequestView)
    ensures
        v.fault() is None <==> v.kind == v.args.kind() && action::args_fault(v.args) is None
            && text::note_fault(6, v.note) is None,
{
}

/// A waiting action is accepted exactly where its kind is that of its arguments, which are
/// accepted, and its note is.
pub proof fn pending_actions_that_are_accepted(v: PendingActionView)
    ensures
        v.fault() is None <==> v.kind == v.args.kind() && action::args_fault(v.args) is None
            && text::note_fault(7, v.note) is None,
{
}

/// A lease of an action is accepted exactly where its kind is that of its arguments, which are
/// accepted, and it lasts at most half a minute.
pub proof fn action_leases_that_are_accepted(v: ActionLeaseView)
    ensures
        v.fault() is None <==> v.kind == v.args.kind() && action::args_fault(v.args) is None && 0
            <= v.expires_at - v.issued_at <= 30,
{
}

/// A grant of actions opens exactly where it has a signature, that holds, what is behind it can
/// be read, and it names the author asked for.
pub proof fn grants_of_actions_that_are_opened(b: Seq<u8>, signed: bool, author_key: Seq<u8>)
    ensures
        ({
            let r = action::opened_grant(b, signed, author_key);
            let read = action::grant_body_of(b.skip(64), b.take(64));
            &&& r is Ok <==> b.len() >= 64 && signed && (read matches Ok(g) && g.author_key
                == author_key)
            &&& r matches Ok(g) ==> read == Ok::<ActionGrantView, FormatError>(g)
            &&& b.len() < 64 || !signed ==> r == Err::<ActionGrantView, FormatError>(
                FormatError::BadHeaderSignature,
            )
            &&& b.len() >= 64 && signed && read is Err ==> r == read
            &&& b.len() >= 64 && signed && (read matches Ok(g) && g.author_key != author_key) ==> r
                == Err::<ActionGrantView, FormatError>(
                FormatError::BadFieldLength { tag: 5, len: 32 },
            )
            &&& b.len() >= 64 ==> action::peeked_grant(b) == read
            &&& b.len() < 64 ==> action::peeked_grant(b) == Err::<ActionGrantView, FormatError>(
                FormatError::BadHeaderSignature,
            )
        }),
{
}

/// A lease of an action opens exactly where it has a signature, that holds, and what is behind
/// it can be read.
pub proof fn leases_of_actions_that_are_opened(b: Seq<u8>, signed: bool)
    ensures
        ({
            let r = action::opened_lease(b, signed);
            let read = action::action_lease_of(b.skip(64), b.take(64));
            &&& b.len() >= 64 && signed ==> r == read
            &&& b.len() < 64 || !signed ==> r == Err::<ActionLeaseView, FormatError>(
                FormatError::BadHeaderSignature,
            )
        }),
{
}

/// A decision on an action opens exactly where it has a signature, that holds, what is behind it
/// can be read, and it names the author asked for.
pub proof fn decisions_on_actions_that_are_opened(b: Seq<u8>, signed: bool, author_key: Seq<u8>)
    ensures
        ({
            let r = action::opened_decision(b, signed, author_key);
            let read = action::action_decision_of(b.skip(64), b.take(64));
            &&& r is Ok <==> b.len() >= 64 && signed && (read matches Ok(d) && d.author_key
                == author_key)
            &&& r matches Ok(d) ==> read == Ok::<ActionDecisionView, FormatError>(d)
            &&& b.len() < 64 || !signed ==> r == Err::<ActionDecisionView, FormatError>(
                FormatError::BadHeaderSignature,
            )
            &&& b.len() >= 64 && signed && read is Err ==> r == read
            &&& b.len() >= 64 && signed && (read matches Ok(d) && d.author_key != author_key) ==> r
                == Err::<ActionDecisionView, FormatError>(
                FormatError::BadFieldLength { tag: 6, len: 32 },
            )
            &&& b.len() >= 64 ==> action::peeked_decision(b) == read
            &&& b.len() < 64 ==> action::peeked_decision(b) == Err::<
                ActionDecisionView,
                FormatError,
            >(FormatError::BadHeaderSignature)
        }),
{
}

/// What is read was accepted.
pub proof fn what_is_read_was_accepted(
    b: Seq<u8>,
    signature: Seq<u8>,
    kind: ActionKind,
)
    ensures
        action::rule_of(b) matches Ok(r) ==> action::rule_fault(r) is None,
        action::constraint_of(b, kind) matches Ok(c) ==> action::constraint_fault(c) is None
            && c.kind() == kind,
        action::args_of(b, kind) matches Ok(a) ==> action::args_fault(a) is None && a.kind()
            == kind,
        action::grant_body_of(b, signature) matches Ok(g) ==> g.fault() is None && g.signature
            == signature,
        action::action_request_of(b) matches Ok(v) ==> v.fault() is None,
        action::action_lease_of(b, signature) matches Ok(v) ==> v.fault() is None && v.signature
            == signature,
        action::action_decision_of(b, signature) matches Ok(d) ==> d.signature == signature,
        action::pending_action_of(b) matches Ok(v) ==> v.fault() is None,
{
    reveal(action::pending_action_of);
}

/// What is accepted is written, where its fields fit; what is not is not.
pub proof fn what_is_accepted_is_written(
    r: RuleView,
    g: ActionGrantView,
    q: ActionRequestView,
    l: ActionLeaseView,
    p: PendingActionView,
    d: ActionDecisionView,
)
    ensures
        action::constraint_bytes(r.constraint) is Ok <==> action::constraint_fault(r.constraint)
            is None && tlv::sealed(action::constraint_recs(r.constraint)) is Ok,
        action::args_bytes(q.args) is Ok <==> action::args_fault(q.args) is None && tlv::sealed(
            action::args_recs(q.args),
        ) is Ok,
        action::rule_bytes(r) is Ok <==> action::rule_fault(r) is None && (
        action::constraint_bytes(r.constraint) matches Ok(c) && tlv::sealed(
            action::rule_recs(r, c),
        ) is Ok),
        action::grant_body_bytes(g) is Ok <==> g.fault() is None && (action::rules_bytes(
            g.rules,
        ) matches Ok(c) && tlv::sealed(g.recs(c)) is Ok),
        action::action_request_body_bytes(q) is Ok <==> q.fault() is None && (action::args_bytes(
            q.args,
        ) matches Ok(a) && tlv::sealed(q.recs(a)) is Ok),
        action::action_lease_body_bytes(l) is Ok <==> l.fault() is None && (action::args_bytes(
            l.args,
        ) matches Ok(a) && tlv::sealed(l.recs(a)) is Ok),
        action::pending_action_body_bytes(p) is Ok <==> p.fault() is None && (action::args_bytes(
            p.args,
        ) matches Ok(a) && tlv::sealed(p.recs(a)) is Ok),
        action::action_decision_body_bytes(d) is Ok <==> text::note_fault(5, d.note) is None
            && tlv::sealed(d.recs()) is Ok,
{
}

/// A list of rules is at most 32, one under each number from nought on.
pub proof fn where_rules_stand(rules: Seq<RuleView>)
    ensures
        action::rules_bytes(rules) is Ok ==> rules.len() <= 32 && action::rules_recs(rules) is Ok,
        rules.len() > 32 ==> action::rules_bytes(rules) is Err,
        action::rules_bytes(rules) matches Ok(b) ==> b == tlv::wire(
            action::rules_recs(rules)->Ok_0,
        ),
        rules.len() <= 32 ==> (action::rules_recs(rules) matches Ok(rs) ==> {
            &&& rs.len() == rules.len()
            &&& forall|i: int|
                0 <= i < rs.len() ==> (#[trigger] rs[i]).0 == i && action::rule_bytes(rules[i])
                    == Ok::<Seq<u8>, FormatError>(rs[i].1)
        }),
    decreases rules.len(),
{
    if 0 < rules.len() <= 32 {
        let front = rules.drop_last();
        where_rules_stand(front);
        if let Ok(rs) = action::rules_recs(rules) {
            let prior = action::rules_recs(front)->Ok_0;
            assert forall|i: int| 0 <= i < rs.len() implies (#[trigger] rs[i]).0 == i
                && action::rule_bytes(rules[i]) == Ok::<Seq<u8>, FormatError>(rs[i].1) by {
                if i < front.len() {
                    assert(prior[i] == rs[i]);
                    assert(front[i] == rules[i]);
                }
            }
        }
    }
}

/// A list of rules that is read has at most 32, each read from its record in order.
pub proof fn rules_that_are_read(rs: Seq<Rec>)
    ensures
        action::rules_in(rs) matches Ok(rules) ==> {
            &&& rules.len() == rs.len()
            &&& rules.len() <= 32
            &&& forall|i: int|
                0 <= i < rs.len() ==> action::rule_of((#[trigger] rs[i]).1) == Ok::<
                    RuleView,
                    FormatError,
                >(rules[i])
        },
    decreases rs.len(),
{
    if rs.len() > 0 {
        let front = rs.drop_last();
        rules_that_are_read(front);
        if let Ok(rules) = action::rules_in(rs) {
            let prior = action::rules_in(front)->Ok_0;
            assert forall|i: int| 0 <= i < rs.len() implies action::rule_of((#[trigger] rs[i]).1)
                == Ok::<RuleView, FormatError>(rules[i]) by {
                if i < front.len() {
                    assert(front[i] == rs[i]);
                    assert(prior[i] == rules[i]);
                }
            }
        }
    }
}

/// The methods in a field are read one from each byte, and only where they are accepted.
pub proof fn methods_that_are_read(tag: u16, b: Seq<u8>)
    ensures
        action::methods_of(tag, b) is Ok <==> b.len() > 0 && (forall|i: int|
            0 <= i < b.len() ==> 1 <= #[trigger] b[i] <= 6) && (forall|i: int, j: int|
            0 <= i < j < b.len() ==> #[trigger] b[i] < #[trigger] b[j]),
        action::methods_of(tag, b) matches Ok(ms) ==> ms.len() == b.len() && (forall|i: int|
            0 <= i < b.len() ==> (#[trigger] ms[i]).number() == b[i]),
{
    let ms = b.map_values(|x: u8| Method::numbered(x)->0);
    method_lists_that_are_accepted(tag, ms);
    if forall|i: int| 0 <= i < b.len() ==> 1 <= #[trigger] b[i] <= 6 {
        assert forall|i: int| 0 <= i < b.len() implies (#[trigger] ms[i]).number() == b[i] by {
            assert(1 <= b[i] <= 6);
        }
        assert(action::methods_byte_fault(tag, b) is None);
        if action::methods_of(tag, b) is Ok {
            assert forall|i: int, j: int| 0 <= i < j < b.len() implies #[trigger] b[i]
                < #[trigger] b[j] by {
                assert(ms[i].number() < ms[j].number());
            }
        }
        if forall|i: int, j: int| 0 <= i < j < b.len() ==> #[trigger] b[i] < #[trigger] b[j] {
            assert forall|i: int, j: int| 0 <= i < j < ms.len() implies (#[trigger] ms[i]).number()
                < (#[trigger] ms[j]).number() by {
                assert(b[i] < b[j]);
            }
        }
    } else {
        let i = choose|i: int| 0 <= i < b.len() && !(1 <= #[trigger] b[i] <= 6);
        assert(Method::numbered(b[i]) is None);
    }
}

/// What tells the limits of rules apart is the kind in two bytes and the limits as written.
pub proof fn the_key_of_limits(r: RuleView, signature: Seq<u8>, body: Seq<u8>)
    ensures
        action::limiter_bytes(r) is Ok <==> action::constraint_bytes(r.constraint) is Ok,
        action::limiter_bytes(r) matches Ok(b) ==> b == spec_u16_to_le_bytes(r.kind.number())
            + action::constraint_bytes(r.constraint)->Ok_0,
        action::signed_bytes(signature, Ok(body)) == Ok::<Seq<u8>, FormatError>(signature + body),
{
}

/// A queue of actions that is read is at most sixteen, each readable behind its length in four
/// bytes, and nothing else.
pub proof fn queues_of_actions_that_are_read(b: Seq<u8>) -> (ds: Seq<Seq<u8>>)
    requires
        action::action_queue_behind(b, 0) is Ok,
    ensures
        ({
            let ps = action::action_queue_behind(b, 0)->Ok_0;
            &&& ps.len() <= 16
            &&& ds.len() == ps.len()
            &&& b == bytes::framed(ds)
            &&& forall|i: int|
                0 <= i < ds.len() ==> action::pending_action_of(#[trigger] ds[i]) == Ok::<
                    PendingActionView,
                    FormatError,
                >(ps[i])
        }),
{
    queue_from(b, 0)
}

proof fn queue_from(b: Seq<u8>, taken: nat) -> (ds: Seq<Seq<u8>>)
    requires
        action::action_queue_behind(b, taken) is Ok,
        taken <= 16,
    ensures
        ({
            let ps = action::action_queue_behind(b, taken)->Ok_0;
            &&& taken + ps.len() <= 16
            &&& ds.len() == ps.len()
            &&& b == bytes::framed(ds)
            &&& forall|i: int|
                0 <= i < ds.len() ==> action::pending_action_of(#[trigger] ds[i]) == Ok::<
                    PendingActionView,
                    FormatError,
                >(ps[i])
        }),
    decreases b.len(),
{
    if b.len() == 0 {
        let none = Seq::<Seq<u8>>::empty();
        assert(b =~= bytes::framed(none));
        none
    } else {
        let len = bytes::num32(b.subrange(0, 4)) as int;
        let record = b.subrange(4, 4 + len);
        let tail = b.skip(4 + len);
        let rest = queue_from(tail, taken + 1);
        let ds = seq![record] + rest;
        let ps = action::action_queue_behind(b, taken)->Ok_0;
        let more = action::action_queue_behind(tail, taken + 1)->Ok_0;
        assert(ds.drop_first() =~= rest);
        bytes::num32_round_trip(b.subrange(0, 4));
        assert(b =~= bytes::framed(ds));
        assert forall|i: int| 0 <= i < ds.len() implies action::pending_action_of(#[trigger] ds[i])
            == Ok::<PendingActionView, FormatError>(ps[i]) by {
            if i > 0 {
                assert(ds[i] == rest[i - 1]);
                assert(ps[i] == more[i - 1]);
            }
        }
        ds
    }
}

/// Where the limits of an action stand, and which of them have to be there.
pub proof fn where_limits_stand(rs: Seq<Rec>)
    ensures
        ({
            let c = action::constraint_in(rs, ActionKind::GitPush);
            &&& c is Ok <==> tlv::lookup(rs, 1) is Some && tlv::lookup(rs, 2) is Some
            &&& c is Ok ==> c->Ok_0 == (ConstraintView::GitPush {
                remote: decode_utf8(tlv::lookup(rs, 1)->0),
                branch: decode_utf8(tlv::lookup(rs, 2)->0),
            })
        }),
        ({
            let c = action::constraint_in(rs, ActionKind::TreeRemove);
            &&& c is Ok <==> tlv::lookup(rs, 3) is Some
            &&& c is Ok ==> c->Ok_0 == (ConstraintView::TreeRemove {
                prefix: decode_utf8(tlv::lookup(rs, 3)->0),
            })
        }),
        ({
            let c = action::constraint_in(rs, ActionKind::TreeRename);
            &&& c is Ok <==> tlv::lookup(rs, 4) is Some && tlv::lookup(rs, 5) is Some
            &&& c is Ok ==> c->Ok_0 == (ConstraintView::TreeRename {
                from_prefix: decode_utf8(tlv::lookup(rs, 4)->0),
                to_prefix: decode_utf8(tlv::lookup(rs, 5)->0),
            })
        }),
        ({
            let c = action::constraint_in(rs, ActionKind::HttpRequest);
            &&& c is Ok <==> tlv::lookup(rs, 6) is Some && tlv::lookup(rs, 7) is Some
                && tlv::lookup(
                rs,
                8,
            ) is Some
            &&& c is Ok ==> c->Ok_0 == (ConstraintView::HttpRequest {
                host: decode_utf8(tlv::lookup(rs, 6)->0),
                methods: action::methods_of(7, tlv::lookup(rs, 7)->0)->Ok_0,
                path_prefix: decode_utf8(tlv::lookup(rs, 8)->0),
                secret_ref: match tlv::lookup(rs, 9) {
                    Some(b) => Some(decode_utf8(b)),
                    None => None,
                },
            })
        }),
{
}

/// Where the arguments of an action stand, and which of them have to be there.
pub proof fn where_arguments_stand(rs: Seq<Rec>)
    ensures
        ({
            let a = action::args_in(rs, ActionKind::GitPush);
            &&& a is Ok <==> tlv::lookup(rs, 1) is Some && tlv::lookup(rs, 2) is Some
            &&& a is Ok ==> a->Ok_0 == (ArgsView::GitPush {
                remote: decode_utf8(tlv::lookup(rs, 1)->0),
                branch: decode_utf8(tlv::lookup(rs, 2)->0),
            })
        }),
        ({
            let a = action::args_in(rs, ActionKind::TreeRemove);
            &&& a is Ok <==> tlv::lookup(rs, 3) is Some
            &&& a is Ok ==> a->Ok_0 == (ArgsView::TreeRemove {
                path: decode_utf8(tlv::lookup(rs, 3)->0),
            })
        }),
        ({
            let a = action::args_in(rs, ActionKind::TreeRename);
            &&& a is Ok <==> tlv::lookup(rs, 4) is Some && tlv::lookup(rs, 5) is Some
            &&& a is Ok ==> a->Ok_0 == (ArgsView::TreeRename {
                from: decode_utf8(tlv::lookup(rs, 4)->0),
                to: decode_utf8(tlv::lookup(rs, 5)->0),
            })
        }),
        ({
            let a = action::args_in(rs, ActionKind::HttpRequest);
            &&& a is Ok <==> tlv::lookup(rs, 6) is Some && tlv::lookup(rs, 7) is Some
                && tlv::lookup(
                rs,
                8,
            ) is Some && tlv::lookup(rs, 10) is Some && tlv::lookup(rs, 11) is Some
            &&& a is Ok ==> a->Ok_0 == (ArgsView::HttpRequest {
                host: decode_utf8(tlv::lookup(rs, 6)->0),
                method: Method::numbered(tlv::lookup(rs, 7)->0[0])->0,
                path: decode_utf8(tlv::lookup(rs, 8)->0),
                body_digest: tlv::lookup(rs, 10)->0,
                body_len: bytes::num32(tlv::lookup(rs, 11)->0),
            })
        }),
{
}

/// A method is one byte from one to six, and a kind is two bytes from one to four.
pub proof fn values_of_single_fields(tag: u16, v: Seq<u8>)
    ensures
        action::method_fault(tag, v) is None <==> v.len() == 1 && 1 <= v[0] <= 6,
        action::kind_fault(tag, v) is None <==> v.len() == 2 && 1 <= bytes::num16(v) <= 4,
        action::text_fault(tag, v) is None <==> valid_utf8(v),
{
}

/// A queue is torn where it ends within the length of a record or within a record, and a record
/// that cannot be read refuses it for its own reason.
pub proof fn why_a_queue_of_actions_is_refused(b: Seq<u8>, taken: nat)
    ensures
        1 <= b.len() < 4 ==> action::action_queue_behind(b, taken) == Err::<
            Seq<PendingActionView>,
            QueueError,
        >(
            QueueError::Torn("очередь действий оборвана на длине записи"),
        ),
        b.len() >= 4 && b.len() - 4 < bytes::num32(
            b.subrange(0, 4),
        ) ==> action::action_queue_behind(b, taken) == Err::<Seq<PendingActionView>, QueueError>(
            QueueError::Torn("запись очереди действий короче объявленной длины"),
        ),
        b.len() >= 4 && b.len() - 4 >= bytes::num32(b.subrange(0, 4)) ==> (
        action::pending_action_of(
            b.subrange(4, 4 + bytes::num32(b.subrange(0, 4))),
        ) matches Err(e) ==> action::action_queue_behind(b, taken) == Err::<
            Seq<PendingActionView>,
            QueueError,
        >(
            QueueError::Record(e),
        )),
{
}

/// Where the fields of a rule stand, and which of them have to be there.
pub proof fn where_the_fields_of_a_rule_stand(rs: Seq<Rec>)
    ensures
        action::rule_in(rs) matches Ok(v) ==> {
            &&& tlv::lookup(rs, 1) matches Some(b)
                && v.kind == ActionKind::numbered(bytes::num16(b))->0
            &&& tlv::lookup(rs, 3) matches Some(b) && v.max_uses == bytes::num32(b)
            &&& tlv::lookup(rs, 4) matches Some(b) && (v.confirm <==> b[0] == 1)
            &&& tlv::lookup(rs, 5) matches Some(b) && (v.delegable <==> b[0] == 1)
            &&& action::constraint_of(tlv::lookup(rs, 2)->0, v.kind)
                == Ok::<ConstraintView, FormatError>(v.constraint)
            &&& tlv::lookup(rs, 2) is Some
        },
        action::rule_in(rs) is Ok <==> {
            &&& tlv::lookup(rs, 1) is Some
            &&& tlv::lookup(rs, 2) is Some
            &&& tlv::lookup(rs, 3) is Some
            &&& tlv::lookup(rs, 4) is Some
            &&& tlv::lookup(rs, 5) is Some
            &&& action::constraint_of(
                tlv::lookup(rs, 2)->0,
                ActionKind::numbered(bytes::num16(tlv::lookup(rs, 1)->0))->0,
            ) is Ok
        },
{
}

/// Where the fields of a grant of actions stand, and which of them have to be there.
pub proof fn where_the_fields_of_a_grant_of_actions_stand(rs: Seq<Rec>, signature: Seq<u8>)
    ensures
        action::action_grant_in(rs, signature) matches Ok(v) ==> {
            &&& tlv::lookup(rs, 1) == Some(v.grant_id)
            &&& tlv::lookup(rs, 2) matches Some(b) && v.rules == action::rules_of(b)->Ok_0
            &&& tlv::lookup(rs, 3) matches Some(b) && v.issued_at == bytes::num64s(b)
            &&& tlv::lookup(rs, 4) matches Some(b) && v.expires_at == bytes::num64s(b)
            &&& tlv::lookup(rs, 5) == Some(v.author_key)
            &&& v.signature == signature
        },
        action::action_grant_in(rs, signature) is Ok <==> {
            &&& tlv::lookup(rs, 1) is Some
            &&& tlv::lookup(rs, 2) is Some
            &&& tlv::lookup(rs, 3) is Some
            &&& tlv::lookup(rs, 4) is Some
            &&& tlv::lookup(rs, 5) is Some
        },
{
}

/// Where the fields of a request for an action stand, and which of them have to be there.
pub proof fn where_the_fields_of_a_request_for_an_action_stand(rs: Seq<Rec>)
    ensures
        action::action_request_in(rs) matches Ok(v) ==> {
            &&& tlv::lookup(rs, 1) == Some(v.grant_id)
            &&& tlv::lookup(rs, 2) == Some(v.door_fpr)
            &&& tlv::lookup(rs, 3) matches Some(b)
                && v.kind == ActionKind::numbered(bytes::num16(b))->0
            &&& v.args
                == action::args_of(
                    tlv::lookup(rs, 4)->0,
                    ActionKind::numbered(bytes::num16(tlv::lookup(rs, 3)->0))->0,
                )->Ok_0
            &&& tlv::lookup(rs, 5) == Some(v.nonce)
            &&& tlv::lookup(rs, 6) matches Some(b) && v.note == decode_utf8(b)
            &&& tlv::lookup(rs, 4) is Some
        },
        action::action_request_in(rs) is Ok <==> {
            &&& tlv::lookup(rs, 1) is Some
            &&& tlv::lookup(rs, 2) is Some
            &&& tlv::lookup(rs, 3) is Some
            &&& tlv::lookup(rs, 4) is Some
            &&& tlv::lookup(rs, 5) is Some
            &&& tlv::lookup(rs, 6) is Some
            &&& action::args_of(
                tlv::lookup(rs, 4)->0,
                ActionKind::numbered(bytes::num16(tlv::lookup(rs, 3)->0))->0,
            ) is Ok
        },
{
}

/// Where the fields of a lease of an action stand, and which of them have to be there.
pub proof fn where_the_fields_of_a_lease_of_an_action_stand(rs: Seq<Rec>, signature: Seq<u8>)
    ensures
        action::action_lease_in(rs, signature) matches Ok(v) ==> {
            &&& tlv::lookup(rs, 1) == Some(v.grant_id)
            &&& tlv::lookup(rs, 2) == Some(v.door_fpr)
            &&& tlv::lookup(rs, 3) matches Some(b)
                && v.kind == ActionKind::numbered(bytes::num16(b))->0
            &&& v.args
                == action::args_of(
                    tlv::lookup(rs, 4)->0,
                    ActionKind::numbered(bytes::num16(tlv::lookup(rs, 3)->0))->0,
                )->Ok_0
            &&& tlv::lookup(rs, 5) == Some(v.nonce)
            &&& tlv::lookup(rs, 6) matches Some(b) && v.issued_at == bytes::num64s(b)
            &&& tlv::lookup(rs, 7) matches Some(b) && v.expires_at == bytes::num64s(b)
            &&& tlv::lookup(rs, 8) matches Some(b) && v.seq == bytes::num64(b)
            &&& v.signature == signature
            &&& tlv::lookup(rs, 4) is Some
        },
        action::action_lease_in(rs, signature) is Ok <==> {
            &&& tlv::lookup(rs, 1) is Some
            &&& tlv::lookup(rs, 2) is Some
            &&& tlv::lookup(rs, 3) is Some
            &&& tlv::lookup(rs, 4) is Some
            &&& tlv::lookup(rs, 5) is Some
            &&& tlv::lookup(rs, 6) is Some
            &&& tlv::lookup(rs, 7) is Some
            &&& tlv::lookup(rs, 8) is Some
            &&& action::args_of(
                tlv::lookup(rs, 4)->0,
                ActionKind::numbered(bytes::num16(tlv::lookup(rs, 3)->0))->0,
            ) is Ok
        },
{
}

/// Where the fields of a waiting action stand, and which of them have to be there.
pub proof fn where_the_fields_of_a_waiting_action_stand(rs: Seq<Rec>)
    ensures
        action::pending_action_in(rs) matches Ok(v) ==> {
            &&& tlv::lookup(rs, 1) matches Some(b) && v.seq == bytes::num64(b)
            &&& tlv::lookup(rs, 2) == Some(v.grant_id)
            &&& tlv::lookup(rs, 3) == Some(v.door_fpr)
            &&& tlv::lookup(rs, 4) matches Some(b)
                && v.kind == ActionKind::numbered(bytes::num16(b))->0
            &&& v.args
                == action::args_of(
                    tlv::lookup(rs, 5)->0,
                    ActionKind::numbered(bytes::num16(tlv::lookup(rs, 4)->0))->0,
                )->Ok_0
            &&& tlv::lookup(rs, 6) == Some(v.nonce)
            &&& tlv::lookup(rs, 7) matches Some(b) && v.note == decode_utf8(b)
            &&& tlv::lookup(rs, 8) matches Some(b) && v.at == bytes::num64s(b)
            &&& tlv::lookup(rs, 5) is Some
        },
        action::pending_action_in(rs) is Ok <==> {
            &&& tlv::lookup(rs, 1) is Some
            &&& tlv::lookup(rs, 2) is Some
            &&& tlv::lookup(rs, 3) is Some
            &&& tlv::lookup(rs, 4) is Some
            &&& tlv::lookup(rs, 5) is Some
            &&& tlv::lookup(rs, 6) is Some
            &&& tlv::lookup(rs, 7) is Some
            &&& tlv::lookup(rs, 8) is Some
            &&& action::args_of(
                tlv::lookup(rs, 5)->0,
                ActionKind::numbered(bytes::num16(tlv::lookup(rs, 4)->0))->0,
            ) is Ok
        },
{
}

/// Where the fields of a decision on an action stand, and which of them have to be there.
pub proof fn where_the_fields_of_a_decision_on_an_action_stand(rs: Seq<Rec>, signature: Seq<u8>)
    ensures
        action::action_decision_in(rs, signature) matches Ok(v) ==> {
            &&& tlv::lookup(rs, 3) matches Some(b) && v.seq == bytes::num64(b)
            &&& tlv::lookup(rs, 1) == Some(v.grant_id)
            &&& tlv::lookup(rs, 2) == Some(v.door_fpr)
            &&& tlv::lookup(rs, 4) matches Some(b) && (v.approve <==> b[0] == 1)
            &&& tlv::lookup(rs, 5) matches Some(b) && v.note == decode_utf8(b)
            &&& tlv::lookup(rs, 6) == Some(v.author_key)
            &&& v.signature == signature
        },
        action::action_decision_in(rs, signature) is Ok <==> {
            &&& tlv::lookup(rs, 1) is Some
            &&& tlv::lookup(rs, 2) is Some
            &&& tlv::lookup(rs, 3) is Some
            &&& tlv::lookup(rs, 4) is Some
            &&& tlv::lookup(rs, 5) is Some
            &&& tlv::lookup(rs, 6) is Some
        },
{
}

} // verus!
