//! The door for actions: what an agent may do, its request, the lease for one
//! execution, and the rule by which arguments stay within a grant.

use crate::access::QueueError;
use crate::bytes::{
    self, append, array, flag_byte, one, owned, part, read16, read32, read64, read64s, same,
    write16, write32, write64, write64s,
};
use crate::error::{bad, FormatError};
use crate::paths::{
    self, check_host, check_http_path, check_name, check_secret_ref, check_tree_path, path_under,
};
use crate::text::{self, decimal, note_bytes_verdict, note_verdict, same_text, text_of, utf8_text};
use crate::tlv::{
    self, check_flag, check_length, find, need, read_fields, refuse, Rec, Schema, TlvReader,
    TlvWriter,
};
use crate::transcript::{self, Claim, Label, Transcript, TranscriptView};
use crate::unknown::{self, unknown_verdict};
use vstd::prelude::*;
use vstd::string::*;
use vstd::utf8::*;

pub mod decision_tag;
pub mod field_tag;
pub mod grant_tag;
pub mod laws;
pub mod lease_tag;
pub mod pending_tag;
pub mod request_tag;
pub mod rule_tag;

verus! {

/// The length of a signature.
pub const SIGNATURE_LEN: usize = 64;

/// How long a lease for an action lasts, in seconds.
pub const ACTION_LEASE_SECONDS: i64 = 30;

/// The most rules in a grant.
pub const MAX_ACTION_RULES: usize = 32;

/// The longest name, host or reference, in bytes.
pub const MAX_ACTION_NAME: usize = crate::paths::MAX_ACTION_NAME;

/// The longest path, in bytes.
pub const MAX_ACTION_PATH: usize = crate::paths::MAX_ACTION_PATH;

/// The longest body of an HTTP request: one mebibyte.
pub const MAX_BODY_LEN: u32 = 1024 * 1024;

/// The most waiting actions that the server shows at once.
pub const MAX_PENDING_ACTION_WINDOW: usize = 16;

/// The longest words of a refused action, in bytes.
pub const MAX_REFUSAL: usize = 1024;

/// What can be done.
#[derive(Debug, Clone, Copy, PartialEq, Eq, PartialOrd, Ord, Hash, Structural)]
pub enum ActionKind {
    GitPush,
    TreeRemove,
    TreeRename,
    HttpRequest,
}

impl ActionKind {
    /// The number of the kind.
    pub open spec fn number(self) -> u16 {
        match self {
            ActionKind::GitPush => 1,
            ActionKind::TreeRemove => 2,
            ActionKind::TreeRename => 3,
            ActionKind::HttpRequest => 4,
        }
    }

    /// The kind with a number.
    pub open spec fn numbered(v: u16) -> Option<ActionKind> {
        if v == 1 {
            Some(ActionKind::GitPush)
        } else if v == 2 {
            Some(ActionKind::TreeRemove)
        } else if v == 3 {
            Some(ActionKind::TreeRename)
        } else if v == 4 {
            Some(ActionKind::HttpRequest)
        } else {
            None
        }
    }

    /// The number of the kind.
    pub fn as_u16(self) -> (r: u16)
        ensures
            r == self.number(),
    {
        match self {
            ActionKind::GitPush => 1,
            ActionKind::TreeRemove => 2,
            ActionKind::TreeRename => 3,
            ActionKind::HttpRequest => 4,
        }
    }

    /// The kind with a number; an unknown number is refused.
    pub fn from_u16(value: u16, tag: u16) -> (r: Result<ActionKind, FormatError>)
        ensures
            match ActionKind::numbered(value) {
                Some(k) => r == Ok::<ActionKind, FormatError>(k),
                None => r == Err::<ActionKind, FormatError>(
                    FormatError::BadFieldLength { tag, len: 2 },
                ),
            },
    {
        match value {
            1 => Ok(ActionKind::GitPush),
            2 => Ok(ActionKind::TreeRemove),
            3 => Ok(ActionKind::TreeRename),
            4 => Ok(ActionKind::HttpRequest),
            _ => Err(bad(tag, 2)),
        }
    }
}

/// The method of an HTTP request.
#[derive(Debug, Clone, Copy, PartialEq, Eq, PartialOrd, Ord, Hash, Structural)]
pub enum Method {
    Get,
    Head,
    Post,
    Put,
    Patch,
    Delete,
}

impl Method {
    /// The number of the method.
    pub open spec fn number(self) -> u8 {
        match self {
            Method::Get => 1,
            Method::Head => 2,
            Method::Post => 3,
            Method::Put => 4,
            Method::Patch => 5,
            Method::Delete => 6,
        }
    }

    /// The method with a number.
    pub open spec fn numbered(v: u8) -> Option<Method> {
        if v == 1 {
            Some(Method::Get)
        } else if v == 2 {
            Some(Method::Head)
        } else if v == 3 {
            Some(Method::Post)
        } else if v == 4 {
            Some(Method::Put)
        } else if v == 5 {
            Some(Method::Patch)
        } else if v == 6 {
            Some(Method::Delete)
        } else {
            None
        }
    }

    /// The number of the method.
    pub fn as_u8(self) -> (r: u8)
        ensures
            r == self.number(),
    {
        match self {
            Method::Get => 1,
            Method::Head => 2,
            Method::Post => 3,
            Method::Put => 4,
            Method::Patch => 5,
            Method::Delete => 6,
        }
    }

    /// The method with a number; an unknown number is refused.
    pub fn from_u8(value: u8, tag: u16) -> (r: Result<Method, FormatError>)
        ensures
            match Method::numbered(value) {
                Some(m) => r == Ok::<Method, FormatError>(m),
                None => r == Err::<Method, FormatError>(
                    FormatError::BadFieldLength { tag, len: 1 },
                ),
            },
    {
        match value {
            1 => Ok(Method::Get),
            2 => Ok(Method::Head),
            3 => Ok(Method::Post),
            4 => Ok(Method::Put),
            5 => Ok(Method::Patch),
            6 => Ok(Method::Delete),
            _ => Err(bad(tag, 1)),
        }
    }
}

/// The limits of one kind of action. There is no field for force, for deleting a
/// branch or for anything else that the door does not do.
#[derive(Debug, Clone, PartialEq, Eq)]
pub enum Constraint {
    GitPush { remote: String, branch: String },
    TreeRemove { prefix: String },
    TreeRename { from_prefix: String, to_prefix: String },
    HttpRequest {
        host: String,
        methods: Vec<Method>,
        path_prefix: String,
        secret_ref: Option<String>,
    },
}

/// What the limits say.
pub enum ConstraintView {
    GitPush { remote: Seq<char>, branch: Seq<char> },
    TreeRemove { prefix: Seq<char> },
    TreeRename { from_prefix: Seq<char>, to_prefix: Seq<char> },
    HttpRequest {
        host: Seq<char>,
        methods: Seq<Method>,
        path_prefix: Seq<char>,
        secret_ref: Option<Seq<char>>,
    },
}

/// What a text that may be absent says.
pub open spec fn opt_text(s: Option<String>) -> Option<Seq<char>> {
    match s {
        Some(s) => Some(s@),
        None => None,
    }
}

impl View for Constraint {
    type V = ConstraintView;

    open spec fn view(&self) -> ConstraintView {
        match self {
            Constraint::GitPush { remote, branch } => ConstraintView::GitPush {
                remote: remote@,
                branch: branch@,
            },
            Constraint::TreeRemove { prefix } => ConstraintView::TreeRemove { prefix: prefix@ },
            Constraint::TreeRename { from_prefix, to_prefix } => ConstraintView::TreeRename {
                from_prefix: from_prefix@,
                to_prefix: to_prefix@,
            },
            Constraint::HttpRequest { host, methods, path_prefix, secret_ref } =>
                ConstraintView::HttpRequest {
                host: host@,
                methods: methods@,
                path_prefix: path_prefix@,
                secret_ref: opt_text(*secret_ref),
            },
        }
    }
}

impl ConstraintView {
    /// The kind of action that is limited.
    pub open spec fn kind(self) -> ActionKind {
        match self {
            ConstraintView::GitPush { .. } => ActionKind::GitPush,
            ConstraintView::TreeRemove { .. } => ActionKind::TreeRemove,
            ConstraintView::TreeRename { .. } => ActionKind::TreeRename,
            ConstraintView::HttpRequest { .. } => ActionKind::HttpRequest,
        }
    }
}

impl Constraint {
    /// The kind of action that is limited.
    pub fn kind(&self) -> (r: ActionKind)
        ensures
            r == self@.kind(),
    {
        match self {
            Constraint::GitPush { .. } => ActionKind::GitPush,
            Constraint::TreeRemove { .. } => ActionKind::TreeRemove,
            Constraint::TreeRename { .. } => ActionKind::TreeRename,
            Constraint::HttpRequest { .. } => ActionKind::HttpRequest,
        }
    }
}

/// One rule of a grant.
#[derive(Debug, Clone, PartialEq, Eq)]
pub struct ActionRule {
    pub kind: ActionKind,
    pub constraint: Constraint,
    /// How often; zero is without a limit.
    pub max_uses: u32,
    /// Whether the owner approves each execution.
    pub confirm: bool,
    /// Whether the rule may be handed on.
    pub delegable: bool,
}

/// What a rule says.
pub struct RuleView {
    pub kind: ActionKind,
    pub constraint: ConstraintView,
    pub max_uses: u32,
    pub confirm: bool,
    pub delegable: bool,
}

impl View for ActionRule {
    type V = RuleView;

    open spec fn view(&self) -> RuleView {
        RuleView {
            kind: self.kind,
            constraint: self.constraint@,
            max_uses: self.max_uses,
            confirm: self.confirm,
            delegable: self.delegable,
        }
    }
}

/// What is to be done.
#[derive(Debug, Clone, PartialEq, Eq)]
pub enum Args {
    GitPush { remote: String, branch: String },
    TreeRemove { path: String },
    TreeRename { from: String, to: String },
    HttpRequest {
        host: String,
        method: Method,
        path: String,
        body_digest: [u8; 32],
        body_len: u32,
    },
}

/// What the arguments say.
pub enum ArgsView {
    GitPush { remote: Seq<char>, branch: Seq<char> },
    TreeRemove { path: Seq<char> },
    TreeRename { from: Seq<char>, to: Seq<char> },
    HttpRequest {
        host: Seq<char>,
        method: Method,
        path: Seq<char>,
        body_digest: Seq<u8>,
        body_len: u32,
    },
}

impl View for Args {
    type V = ArgsView;

    open spec fn view(&self) -> ArgsView {
        match self {
            Args::GitPush { remote, branch } => ArgsView::GitPush {
                remote: remote@,
                branch: branch@,
            },
            Args::TreeRemove { path } => ArgsView::TreeRemove { path: path@ },
            Args::TreeRename { from, to } => ArgsView::TreeRename { from: from@, to: to@ },
            Args::HttpRequest { host, method, path, body_digest, body_len } =>
                ArgsView::HttpRequest {
                host: host@,
                method: *method,
                path: path@,
                body_digest: body_digest@,
                body_len: *body_len,
            },
        }
    }
}

impl ArgsView {
    /// The kind of action that is asked for.
    pub open spec fn kind(self) -> ActionKind {
        match self {
            ArgsView::GitPush { .. } => ActionKind::GitPush,
            ArgsView::TreeRemove { .. } => ActionKind::TreeRemove,
            ArgsView::TreeRename { .. } => ActionKind::TreeRename,
            ArgsView::HttpRequest { .. } => ActionKind::HttpRequest,
        }
    }

    /// The digest has its length.
    pub open spec fn sized(self) -> bool {
        match self {
            ArgsView::HttpRequest { host, method, path, body_digest, body_len } => body_digest.len()
                == 32,
            _ => true,
        }
    }
}

impl Args {
    /// The kind of action that is asked for.
    pub fn kind(&self) -> (r: ActionKind)
        ensures
            r == self@.kind(),
    {
        match self {
            Args::GitPush { .. } => ActionKind::GitPush,
            Args::TreeRemove { .. } => ActionKind::TreeRemove,
            Args::TreeRename { .. } => ActionKind::TreeRename,
            Args::HttpRequest { .. } => ActionKind::HttpRequest,
        }
    }
}

/// Why an action, or a delegation of a rule, is refused.
#[derive(Debug, Clone, PartialEq, Eq)]
pub enum ActionRefusal {
    WrongKind,
    NotEqual { limiter: &'static str },
    OutsidePrefix { limiter: &'static str },
    BadPath { limiter: &'static str },
    MethodNotAllowed,
    BodyTooLarge { len: u32 },
    ConfirmNotDelegable,
    NotDelegable,
    MoreUses,
    WiderLimiter { limiter: &'static str },
    SecretRefChanged,
}

impl ActionRefusal {
    /// The reason in words.
    pub open spec fn says(self) -> Seq<char> {
        match self {
            ActionRefusal::WrongKind =>
                "аргументы не того вида действия, что правило гранта"@,
            ActionRefusal::NotEqual { limiter } =>
                "значение не совпадает с названным в гранте ограничителем «"@
                + limiter@ + "»"@,
            ActionRefusal::OutsidePrefix { limiter } => "путь лежит вне префикса «"@ + limiter@
                + "», названного в гранте"@,
            ActionRefusal::BadPath { limiter } => "путь у ограничителя «"@ + limiter@
                + "» не той формы: разрешён относительный путь без «..»"@,
            ActionRefusal::MethodNotAllowed =>
                "метода нет в списке разрешённых этим грантом"@,
            ActionRefusal::BodyTooLarge { len } => "тело длиной "@ + crate::text::digits(len as nat)
                + " байт больше разрешённого мегабайта"@,
            ActionRefusal::ConfirmNotDelegable =>
                "правило требует одобрения владельца на каждое исполнение и потому не делегируется"@,
            ActionRefusal::NotDelegable =>
                "правило не помечено как делегируемое: потомку его передать нельзя"@,
            ActionRefusal::MoreUses =>
                "потомку выписано больше исполнений, чем разрешено родителю"@,
            ActionRefusal::WiderLimiter { limiter } => "ограничитель «"@ + limiter@
                + "» у потомка шире родительского"@,
            ActionRefusal::SecretRefChanged =>
                "потомок назвал другую ссылку на секрет: добавить или сменить её делегирование не вправе"@,
        }
    }

    /// The reason in words.
    pub fn text(&self) -> (r: String)
        ensures
            r@ == self.says(),
    {
        match self {
            ActionRefusal::WrongKind =>
                "аргументы не того вида действия, что правило гранта".to_owned(),
            ActionRefusal::NotEqual { limiter } =>
                "значение не совпадает с названным в гранте ограничителем «".to_owned().concat(
                *limiter,
            ).concat("»"),
            ActionRefusal::OutsidePrefix { limiter } =>
                "путь лежит вне префикса «".to_owned().concat(*limiter).concat(
                "», названного в гранте",
            ),
            ActionRefusal::BadPath { limiter } =>
                "путь у ограничителя «".to_owned().concat(*limiter).concat(
                "» не той формы: разрешён относительный путь без «..»",
            ),
            ActionRefusal::MethodNotAllowed =>
                "метода нет в списке разрешённых этим грантом".to_owned(),
            ActionRefusal::BodyTooLarge { len } => "тело длиной ".to_owned().concat(
                decimal(*len as u64).as_str(),
            ).concat(" байт больше разрешённого мегабайта"),
            ActionRefusal::ConfirmNotDelegable =>
                "правило требует одобрения владельца на каждое исполнение и потому не делегируется".to_owned(),
            ActionRefusal::NotDelegable =>
                "правило не помечено как делегируемое: потомку его передать нельзя".to_owned(),
            ActionRefusal::MoreUses =>
                "потомку выписано больше исполнений, чем разрешено родителю".to_owned(),
            ActionRefusal::WiderLimiter { limiter } =>
                "ограничитель «".to_owned().concat(*limiter).concat(
                "» у потомка шире родительского",
            ),
            ActionRefusal::SecretRefChanged =>
                "потомок назвал другую ссылку на секрет: добавить или сменить её делегирование не вправе".to_owned(),
        }
    }
}

/// Why a path does not lie under a prefix of a tree.
pub open spec fn tree_refusal(
    prefix: Seq<char>,
    path: Seq<char>,
    limiter: &'static str,
) -> Option<ActionRefusal> {
    if paths::tree_fault(field_tag::PATH, path) is Some
        || paths::tree_fault(field_tag::PATH, prefix) is Some {
        Some(ActionRefusal::BadPath { limiter })
    } else if paths::under(prefix, path) {
        None
    } else {
        Some(ActionRefusal::OutsidePrefix { limiter })
    }
}

/// Why arguments are not within a rule.
pub open spec fn within(rule: RuleView, args: ArgsView) -> Option<ActionRefusal> {
    if rule.kind != args.kind() || rule.constraint.kind() != args.kind() {
        Some(ActionRefusal::WrongKind)
    } else {
        match (rule.constraint, args) {
            (
                ConstraintView::GitPush { remote, branch },
                ArgsView::GitPush { remote: want_remote, branch: want_branch },
            ) => if remote != want_remote {
                Some(ActionRefusal::NotEqual { limiter: "remote" })
            } else if branch != want_branch {
                Some(ActionRefusal::NotEqual { limiter: "branch" })
            } else {
                None
            },
            (ConstraintView::TreeRemove { prefix }, ArgsView::TreeRemove { path }) => tree_refusal(
                prefix,
                path,
                "prefix",
            ),
            (
                ConstraintView::TreeRename { from_prefix, to_prefix },
                ArgsView::TreeRename { from, to },
            ) => match tree_refusal(from_prefix, from, "from_prefix") {
                Some(e) => Some(e),
                None => tree_refusal(to_prefix, to, "to_prefix"),
            },
            (
                ConstraintView::HttpRequest { host, methods, path_prefix, secret_ref },
                ArgsView::HttpRequest { host: want_host, method, path, body_digest, body_len },
            ) => if host != want_host {
                Some(ActionRefusal::NotEqual { limiter: "host" })
            } else if !methods.contains(method) {
                Some(ActionRefusal::MethodNotAllowed)
            } else if paths::http_fault(field_tag::PATH_PREFIX, path) is Some || paths::http_fault(
                field_tag::PATH_PREFIX,
                path_prefix,
            ) is Some {
                Some(ActionRefusal::BadPath { limiter: "path_prefix" })
            } else if !paths::under(path_prefix, path) {
                Some(ActionRefusal::OutsidePrefix { limiter: "path_prefix" })
            } else if body_len > MAX_BODY_LEN {
                Some(ActionRefusal::BodyTooLarge { len: body_len })
            } else {
                None
            },
            _ => Some(ActionRefusal::WrongKind),
        }
    }
}

/// A number of uses is no more than another; zero is without a limit.
pub open spec fn no_more_uses(child: u32, parent: u32) -> bool {
    parent == 0 || (child != 0 && child <= parent)
}

/// Why a prefix is not narrower than another.
pub open spec fn prefix_refusal(
    parent: Seq<char>,
    child: Seq<char>,
    limiter: &'static str,
) -> Option<ActionRefusal> {
    if paths::under(parent, child) {
        None
    } else {
        Some(ActionRefusal::WiderLimiter { limiter })
    }
}

/// Every method of the one list is in the other.
pub open spec fn methods_within(child: Seq<Method>, parent: Seq<Method>) -> bool {
    forall|i: int| 0 <= i < child.len() ==> parent.contains(#[trigger] child[i])
}

/// Why a rule is not narrower than the rule it is derived from.
pub open spec fn wider(child: RuleView, parent: RuleView) -> Option<ActionRefusal> {
    if child.kind != parent.kind {
        Some(ActionRefusal::WrongKind)
    } else if parent.confirm {
        Some(ActionRefusal::ConfirmNotDelegable)
    } else if !parent.delegable {
        Some(ActionRefusal::NotDelegable)
    } else if !no_more_uses(child.max_uses, parent.max_uses) {
        Some(ActionRefusal::MoreUses)
    } else {
        match (child.constraint, parent.constraint) {
            (
                ConstraintView::GitPush { remote, branch },
                ConstraintView::GitPush { remote: parent_remote, branch: parent_branch },
            ) => if remote != parent_remote {
                Some(ActionRefusal::WiderLimiter { limiter: "remote" })
            } else if branch != parent_branch {
                Some(ActionRefusal::WiderLimiter { limiter: "branch" })
            } else {
                None
            },
            (
                ConstraintView::TreeRemove { prefix },
                ConstraintView::TreeRemove { prefix: parent_prefix },
            ) => prefix_refusal(parent_prefix, prefix, "prefix"),
            (
                ConstraintView::TreeRename { from_prefix, to_prefix },
                ConstraintView::TreeRename { from_prefix: parent_from, to_prefix: parent_to },
            ) => match prefix_refusal(parent_from, from_prefix, "from_prefix") {
                Some(e) => Some(e),
                None => prefix_refusal(parent_to, to_prefix, "to_prefix"),
            },
            (
                ConstraintView::HttpRequest { host, methods, path_prefix, secret_ref },
                ConstraintView::HttpRequest {
                    host: parent_host,
                    methods: parent_methods,
                    path_prefix: parent_prefix,
                    secret_ref: parent_secret,
                },
            ) => if host != parent_host {
                Some(ActionRefusal::WiderLimiter { limiter: "host" })
            } else if !methods_within(methods, parent_methods) {
                Some(ActionRefusal::WiderLimiter { limiter: "methods" })
            } else {
                match prefix_refusal(parent_prefix, path_prefix, "path_prefix") {
                    Some(e) => Some(e),
                    None => if secret_ref is None || secret_ref == parent_secret {
                        None
                    } else {
                        Some(ActionRefusal::SecretRefChanged)
                    },
                }
            },
            _ => Some(ActionRefusal::WrongKind),
        }
    }
}

/// What a narrower rule permits, the rule it is derived from permits too.
pub proof fn narrower_permits_no_more(child: RuleView, parent: RuleView, args: ArgsView)
    requires
        wider(child, parent) is None,
        rule_fault(parent) is None,
        within(child, args) is None,
    ensures
        within(parent, args) is None,
{
    match (child.constraint, parent.constraint, args) {
        (
            ConstraintView::TreeRemove { prefix },
            ConstraintView::TreeRemove { prefix: parent_prefix },
            ArgsView::TreeRemove { path },
        ) => {
            paths::under_is_transitive(parent_prefix, prefix, path);
        },
        (
            ConstraintView::TreeRename { from_prefix, to_prefix },
            ConstraintView::TreeRename { from_prefix: parent_from, to_prefix: parent_to },
            ArgsView::TreeRename { from, to },
        ) => {
            paths::under_is_transitive(parent_from, from_prefix, from);
            paths::under_is_transitive(parent_to, to_prefix, to);
        },
        (
            ConstraintView::HttpRequest { host, methods, path_prefix, secret_ref },
            ConstraintView::HttpRequest {
                host: parent_host,
                methods: parent_methods,
                path_prefix: parent_prefix,
                secret_ref: parent_secret,
            },
            ArgsView::HttpRequest { host: want_host, method, path, body_digest, body_len },
        ) => {
            paths::under_is_transitive(parent_prefix, path_prefix, path);
            let i = choose|i: int| 0 <= i < methods.len() && methods[i] == method;
            assert(parent_methods.contains(methods[i]));
        },
        _ => {},
    }
}

/// A rule that is narrower than a narrower one is narrower than the first.
pub proof fn narrower_is_transitive(a: RuleView, b: RuleView, c: RuleView)
    requires
        wider(a, b) is None,
        wider(b, c) is None,
    ensures
        wider(a, c) is None,
{
    match (a.constraint, b.constraint, c.constraint) {
        (
            ConstraintView::TreeRemove { prefix: x },
            ConstraintView::TreeRemove { prefix: y },
            ConstraintView::TreeRemove { prefix: z },
        ) => {
            paths::under_is_transitive(z, y, x);
        },
        (
            ConstraintView::TreeRename { from_prefix: x, to_prefix: p },
            ConstraintView::TreeRename { from_prefix: y, to_prefix: q },
            ConstraintView::TreeRename { from_prefix: z, to_prefix: r },
        ) => {
            paths::under_is_transitive(z, y, x);
            paths::under_is_transitive(r, q, p);
        },
        (
            ConstraintView::HttpRequest { host: h1, methods: m1, path_prefix: x, secret_ref: s1 },
            ConstraintView::HttpRequest { host: h2, methods: m2, path_prefix: y, secret_ref: s2 },
            ConstraintView::HttpRequest { host: h3, methods: m3, path_prefix: z, secret_ref: s3 },
        ) => {
            paths::under_is_transitive(z, y, x);
            assert forall|i: int| 0 <= i < m1.len() implies m3.contains(#[trigger] m1[i]) by {
                assert(m2.contains(m1[i]));
                let j = choose|j: int| 0 <= j < m2.len() && m2[j] == m1[i];
                assert(m3.contains(m2[j]));
            }
        },
        _ => {},
    }
}

/// A rule that may be handed on may be handed on as it is.
pub proof fn handing_on_as_it_is(r: RuleView)
    requires
        r.delegable,
        !r.confirm,
    ensures
        wider(r, r) is None,
{
    match r.constraint {
        ConstraintView::TreeRemove { prefix } => {
            paths::under_is_reflexive(prefix);
        },
        ConstraintView::TreeRename { from_prefix, to_prefix } => {
            paths::under_is_reflexive(from_prefix);
            paths::under_is_reflexive(to_prefix);
        },
        ConstraintView::HttpRequest { host, methods, path_prefix, secret_ref } => {
            paths::under_is_reflexive(path_prefix);
        },
        _ => {},
    }
}

/// The first objection to the limits, field by field.
pub open spec fn constraint_fault(c: ConstraintView) -> Option<FormatError> {
    match c {
        ConstraintView::GitPush { remote, branch } => tlv::or_else(
            paths::name_fault(field_tag::REMOTE, remote),
            paths::tree_fault(field_tag::BRANCH, branch),
        ),
        ConstraintView::TreeRemove { prefix } => paths::tree_fault(field_tag::PATH, prefix),
        ConstraintView::TreeRename { from_prefix, to_prefix } => tlv::or_else(
            paths::tree_fault(field_tag::FROM, from_prefix),
            paths::tree_fault(field_tag::TO, to_prefix),
        ),
        ConstraintView::HttpRequest { host, methods, path_prefix, secret_ref } => tlv::or_else(
            paths::host_fault(field_tag::HOST, host),
            tlv::or_else(
                methods_fault(field_tag::METHODS, methods),
                tlv::or_else(
                    paths::http_fault(field_tag::PATH_PREFIX, path_prefix),
                    match secret_ref {
                        Some(s) => paths::reference_fault(field_tag::SECRET_REF, s),
                        None => None,
                    },
                ),
            ),
        ),
    }
}

/// The verdict on a list of methods: not empty, and ascending.
pub open spec fn methods_fault(tag: u16, ms: Seq<Method>) -> Option<FormatError> {
    if ms.len() == 0 {
        Some(FormatError::BadFieldLength { tag, len: 0 })
    } else {
        methods_order_fault(ms)
    }
}

/// The first pair of methods that does not ascend.
pub open spec fn methods_order_fault(ms: Seq<Method>) -> Option<FormatError>
    decreases ms.len(),
{
    if ms.len() < 2 {
        None
    } else if ms[0].number() >= ms[1].number() {
        Some(
            FormatError::FieldsOutOfOrder {
                previous: ms[0].number() as u16,
                found: ms[1].number() as u16,
            },
        )
    } else {
        methods_order_fault(ms.drop_first())
    }
}

/// The first objection to a rule.
pub open spec fn rule_fault(r: RuleView) -> Option<FormatError> {
    if r.kind != r.constraint.kind() {
        Some(FormatError::BadFieldLength { tag: rule_tag::KIND, len: 2 })
    } else {
        constraint_fault(r.constraint)
    }
}

/// Whether a path lies under a prefix of a tree.
fn under_tree_prefix(prefix: &str, path: &str, limiter: &'static str) -> (r: Result<
    (),
    ActionRefusal,
>)
    ensures
        match tree_refusal(prefix@, path@, limiter) {
            Some(e) => r == Err::<(), ActionRefusal>(e),
            None => r is Ok,
        },
{
    if check_tree_path(field_tag::PATH, path).is_some() || check_tree_path(
        field_tag::PATH,
        prefix,
    ).is_some() {
        return Err(ActionRefusal::BadPath { limiter });
    }
    if path_under(prefix, path) {
        Ok(())
    } else {
        Err(ActionRefusal::OutsidePrefix { limiter })
    }
}

/// Whether a list holds a method.
fn has_method(ms: &Vec<Method>, m: Method) -> (r: bool)
    ensures
        r == ms@.contains(m),
{
    let mut i: usize = 0;
    while i < ms.len()
        invariant
            i <= ms@.len(),
            forall|j: int| 0 <= j < i ==> ms@[j] != m,
        decreases ms@.len() - i,
    {
        if ms[i] == m {
            assert(ms@[i as int] == m);
            return true;
        }
        i = i + 1;
    }
    false
}

/// Whether arguments are within a rule: one function for the door and the server.
pub fn args_within(rule: &ActionRule, args: &Args) -> (r: Result<(), ActionRefusal>)
    ensures
        match within(rule@, args@) {
            Some(e) => r == Err::<(), ActionRefusal>(e),
            None => r is Ok,
        },
{
    if rule.kind != args.kind() || rule.constraint.kind() != args.kind() {
        return Err(ActionRefusal::WrongKind);
    }
    match (&rule.constraint, args) {
        (
            Constraint::GitPush { remote, branch },
            Args::GitPush { remote: want_remote, branch: want_branch },
        ) => {
            if !same_text(remote.as_str(), want_remote.as_str()) {
                return Err(ActionRefusal::NotEqual { limiter: "remote" });
            }
            if !same_text(branch.as_str(), want_branch.as_str()) {
                return Err(ActionRefusal::NotEqual { limiter: "branch" });
            }
            Ok(())
        },
        (Constraint::TreeRemove { prefix }, Args::TreeRemove { path }) => under_tree_prefix(
            prefix.as_str(),
            path.as_str(),
            "prefix",
        ),
        (Constraint::TreeRename { from_prefix, to_prefix }, Args::TreeRename { from, to }) => {
            under_tree_prefix(from_prefix.as_str(), from.as_str(), "from_prefix")?;
            under_tree_prefix(to_prefix.as_str(), to.as_str(), "to_prefix")
        },
        (
            Constraint::HttpRequest { host, methods, path_prefix, secret_ref: _ },
            Args::HttpRequest { host: want_host, method, path, body_digest: _, body_len },
        ) => {
            if !same_text(host.as_str(), want_host.as_str()) {
                return Err(ActionRefusal::NotEqual { limiter: "host" });
            }
            if !has_method(methods, *method) {
                return Err(ActionRefusal::MethodNotAllowed);
            }
            if check_http_path(field_tag::PATH_PREFIX, path.as_str()).is_some() || check_http_path(
                field_tag::PATH_PREFIX,
                path_prefix.as_str(),
            ).is_some() {
                return Err(ActionRefusal::BadPath { limiter: "path_prefix" });
            }
            if !path_under(path_prefix.as_str(), path.as_str()) {
                return Err(ActionRefusal::OutsidePrefix { limiter: "path_prefix" });
            }
            if *body_len > MAX_BODY_LEN {
                return Err(ActionRefusal::BodyTooLarge { len: *body_len });
            }
            Ok(())
        },
        _ => Err(ActionRefusal::WrongKind),
    }
}

/// Whether one number of uses is no more than another.
fn uses_within(child: u32, parent: u32) -> (r: bool)
    ensures
        r == no_more_uses(child, parent),
{
    parent == 0 || (child != 0 && child <= parent)
}

/// Whether a prefix is narrower than another.
fn narrower_prefix(parent: &str, child: &str, limiter: &'static str) -> (r: Result<
    (),
    ActionRefusal,
>)
    ensures
        match prefix_refusal(parent@, child@, limiter) {
            Some(e) => r == Err::<(), ActionRefusal>(e),
            None => r is Ok,
        },
{
    if path_under(parent, child) {
        Ok(())
    } else {
        Err(ActionRefusal::WiderLimiter { limiter })
    }
}

/// Whether every method of the one list is in the other.
fn methods_in(child: &Vec<Method>, parent: &Vec<Method>) -> (r: bool)
    ensures
        r == methods_within(child@, parent@),
{
    let mut i: usize = 0;
    while i < child.len()
        invariant
            i <= child@.len(),
            forall|j: int| 0 <= j < i ==> parent@.contains(#[trigger] child@[j]),
        decreases child@.len() - i,
    {
        if !has_method(parent, child[i]) {
            assert(!parent@.contains(child@[i as int]));
            return false;
        }
        i = i + 1;
    }
    true
}

/// Whether a rule is narrower than the rule it is derived from.
pub fn narrower(child: &ActionRule, parent: &ActionRule) -> (r: Result<(), ActionRefusal>)
    ensures
        match wider(child@, parent@) {
            Some(e) => r == Err::<(), ActionRefusal>(e),
            None => r is Ok,
        },
{
    if child.kind != parent.kind {
        return Err(ActionRefusal::WrongKind);
    }
    if parent.confirm {
        return Err(ActionRefusal::ConfirmNotDelegable);
    }
    if !parent.delegable {
        return Err(ActionRefusal::NotDelegable);
    }
    if !uses_within(child.max_uses, parent.max_uses) {
        return Err(ActionRefusal::MoreUses);
    }
    match (&child.constraint, &parent.constraint) {
        (
            Constraint::GitPush { remote, branch },
            Constraint::GitPush { remote: parent_remote, branch: parent_branch },
        ) => {
            if !same_text(remote.as_str(), parent_remote.as_str()) {
                return Err(ActionRefusal::WiderLimiter { limiter: "remote" });
            }
            if !same_text(branch.as_str(), parent_branch.as_str()) {
                return Err(ActionRefusal::WiderLimiter { limiter: "branch" });
            }
            Ok(())
        },
        (Constraint::TreeRemove { prefix }, Constraint::TreeRemove { prefix: parent_prefix }) =>
            narrower_prefix(parent_prefix.as_str(), prefix.as_str(), "prefix"),
        (
            Constraint::TreeRename { from_prefix, to_prefix },
            Constraint::TreeRename { from_prefix: parent_from, to_prefix: parent_to },
        ) => {
            narrower_prefix(parent_from.as_str(), from_prefix.as_str(), "from_prefix")?;
            narrower_prefix(parent_to.as_str(), to_prefix.as_str(), "to_prefix")
        },
        (
            Constraint::HttpRequest { host, methods, path_prefix, secret_ref },
            Constraint::HttpRequest {
                host: parent_host,
                methods: parent_methods,
                path_prefix: parent_prefix,
                secret_ref: parent_secret,
            },
        ) => {
            if !same_text(host.as_str(), parent_host.as_str()) {
                return Err(ActionRefusal::WiderLimiter { limiter: "host" });
            }
            if !methods_in(methods, parent_methods) {
                return Err(ActionRefusal::WiderLimiter { limiter: "methods" });
            }
            narrower_prefix(parent_prefix.as_str(), path_prefix.as_str(), "path_prefix")?;
            match (secret_ref, parent_secret) {
                (None, _) => Ok(()),
                (Some(mine), Some(theirs)) => if same_text(mine.as_str(), theirs.as_str()) {
                    Ok(())
                } else {
                    Err(ActionRefusal::SecretRefChanged)
                },
                _ => Err(ActionRefusal::SecretRefChanged),
            }
        },
        _ => Err(ActionRefusal::WrongKind),
    }
}

/// The verdict on bytes that should hold a text.
pub open spec fn text_fault(tag: u16, value: Seq<u8>) -> Option<FormatError> {
    if valid_utf8(value) {
        None
    } else {
        Some(FormatError::NotUtf8 { tag })
    }
}

/// The verdict on bytes that should hold a text.
fn check_text(tag: u16, value: &[u8]) -> (r: Option<FormatError>)
    ensures
        r == text_fault(tag, value@),
{
    match text_of(value) {
        Some(_) => None,
        None => Some(FormatError::NotUtf8 { tag }),
    }
}

/// The bytes of a list of methods.
pub open spec fn methods_bytes(ms: Seq<Method>) -> Seq<u8> {
    ms.map_values(|m: Method| m.number())
}

/// The first byte that is no method.
pub open spec fn methods_byte_fault(tag: u16, b: Seq<u8>) -> Option<FormatError> {
    if exists|i: int| 0 <= i < b.len() && Method::numbered(#[trigger] b[i]) is None {
        Some(FormatError::BadFieldLength { tag, len: 1 })
    } else {
        None
    }
}

/// The list of methods that bytes hold.
pub open spec fn methods_of(tag: u16, b: Seq<u8>) -> Result<Seq<Method>, FormatError> {
    let ms = b.map_values(|x: u8| Method::numbered(x)->0);
    match tlv::or_else(methods_byte_fault(tag, b), methods_fault(tag, ms)) {
        Some(e) => Err(e),
        None => Ok(ms),
    }
}

/// The verdict on bytes that should hold a list of methods.
pub open spec fn methods_bytes_fault(tag: u16, b: Seq<u8>) -> Option<FormatError> {
    match methods_of(tag, b) {
        Ok(_) => None,
        Err(e) => Some(e),
    }
}

/// A list of methods survives being written and read back.
pub proof fn methods_round_trip(tag: u16, ms: Seq<Method>)
    requires
        methods_fault(tag, ms) is None,
    ensures
        methods_of(tag, methods_bytes(ms)) == Ok::<Seq<Method>, FormatError>(ms),
{
    let b = methods_bytes(ms);
    assert forall|i: int| 0 <= i < b.len() implies Method::numbered(#[trigger] b[i]) == Some(
        ms[i],
    ) by {
        assert(b[i] == ms[i].number());
    }
    assert(b.map_values(|x: u8| Method::numbered(x)->0) =~= ms);
}

/// The verdict on a list of methods.
fn check_methods(tag: u16, ms: &Vec<Method>) -> (r: Option<FormatError>)
    ensures
        r == methods_fault(tag, ms@),
{
    if ms.len() == 0 {
        return Some(bad(tag, 0));
    }
    let mut i: usize = 1;
    assert(ms@.skip(0) =~= ms@);
    while i < ms.len()
        invariant
            1 <= i <= ms@.len(),
            methods_order_fault(ms@) == methods_order_fault(ms@.skip(i as int - 1)),
        decreases ms@.len() - i,
    {
        let ghost rest = ms@.skip(i as int - 1);
        assert(rest.drop_first() =~= ms@.skip(i as int));
        assert(rest[0] == ms@[i as int - 1] && rest[1] == ms@[i as int]);
        let a: u8 = ms[i - 1].as_u8();
        let b: u8 = ms[i].as_u8();
        if a >= b {
            return Some(FormatError::FieldsOutOfOrder { previous: a as u16, found: b as u16 });
        }
        i = i + 1;
    }
    None
}

fn encode_methods(ms: &Vec<Method>) -> (r: Vec<u8>)
    ensures
        r@ == methods_bytes(ms@),
{
    let mut out: Vec<u8> = Vec::new();
    let mut i: usize = 0;
    while i < ms.len()
        invariant
            i <= ms@.len(),
            out@.len() == i,
            forall|j: int| 0 <= j < i ==> out@[j] == (#[trigger] ms@[j]).number(),
        decreases ms@.len() - i,
    {
        out.push(ms[i].as_u8());
        i = i + 1;
    }
    assert(out@ =~= methods_bytes(ms@));
    out
}

fn decode_methods(tag: u16, b: &[u8]) -> (r: Result<Vec<Method>, FormatError>)
    ensures
        match r {
            Ok(ms) => methods_of(tag, b@) == Ok::<Seq<Method>, FormatError>(ms@),
            Err(e) => methods_of(tag, b@) == Err::<Seq<Method>, FormatError>(e),
        },
{
    let mut out: Vec<Method> = Vec::new();
    let mut i: usize = 0;
    while i < b.len()
        invariant
            i <= b@.len(),
            out@.len() == i,
            forall|j: int| 0 <= j < i ==> Method::numbered(#[trigger] b@[j]) == Some(out@[j]),
        decreases b@.len() - i,
    {
        match Method::from_u8(b[i], tag) {
            Ok(m) => {
                out.push(m);
            },
            Err(e) => {
                assert(Method::numbered(b@[i as int]) is None);
                return Err(e);
            },
        }
        i = i + 1;
    }
    assert(out@ =~= b@.map_values(|x: u8| Method::numbered(x)->0));
    refuse(check_methods(tag, &out))?;
    Ok(out)
}

/// The records of the limits.
pub open spec fn constraint_recs(c: ConstraintView) -> Seq<Rec> {
    let rs = Seq::<Rec>::empty();
    match c {
        ConstraintView::GitPush { remote, branch } => rs.push(
            (field_tag::REMOTE, encode_utf8(remote)),
        ).push((field_tag::BRANCH, encode_utf8(branch))),
        ConstraintView::TreeRemove { prefix } => rs.push((field_tag::PATH, encode_utf8(prefix))),
        ConstraintView::TreeRename { from_prefix, to_prefix } => rs.push(
            (field_tag::FROM, encode_utf8(from_prefix)),
        ).push((field_tag::TO, encode_utf8(to_prefix))),
        ConstraintView::HttpRequest { host, methods, path_prefix, secret_ref } => tlv::with_opt(
            rs.push((field_tag::HOST, encode_utf8(host))).push(
                (field_tag::METHODS, methods_bytes(methods)),
            ).push((field_tag::PATH_PREFIX, encode_utf8(path_prefix))),
            field_tag::SECRET_REF,
            opt_encode(secret_ref),
        ),
    }
}

/// The bytes of a text that may be absent.
pub open spec fn opt_encode(s: Option<Seq<char>>) -> Option<Seq<u8>> {
    match s {
        Some(s) => Some(encode_utf8(s)),
        None => None,
    }
}

/// The bytes of the limits.
pub open spec fn constraint_bytes(c: ConstraintView) -> Result<Seq<u8>, FormatError> {
    match constraint_fault(c) {
        Some(e) => Err(e),
        None => tlv::sealed(constraint_recs(c)),
    }
}

/// The rule for the fields of the limits of one kind of action.
pub struct ConstraintSchema {
    pub kind: ActionKind,
}

/// The fields of the limits that hold a text.
pub open spec fn constraint_text(kind: ActionKind, tag: u16) -> bool {
    match kind {
        ActionKind::GitPush => tag == field_tag::REMOTE || tag == field_tag::BRANCH,
        ActionKind::TreeRemove => tag == field_tag::PATH,
        ActionKind::TreeRename => tag == field_tag::FROM || tag == field_tag::TO,
        ActionKind::HttpRequest => tag == field_tag::HOST || tag == field_tag::PATH_PREFIX || tag
            == field_tag::SECRET_REF,
    }
}

fn is_constraint_text(kind: ActionKind, tag: u16) -> (r: bool)
    ensures
        r == constraint_text(kind, tag),
{
    match kind {
        ActionKind::GitPush => tag == field_tag::REMOTE || tag == field_tag::BRANCH,
        ActionKind::TreeRemove => tag == field_tag::PATH,
        ActionKind::TreeRename => tag == field_tag::FROM || tag == field_tag::TO,
        ActionKind::HttpRequest => tag == field_tag::HOST || tag == field_tag::PATH_PREFIX || tag
            == field_tag::SECRET_REF,
    }
}

impl Schema for ConstraintSchema {
    open spec fn fault(&self, tag: u16, value: Seq<u8>) -> Option<FormatError> {
        if constraint_text(self.kind, tag) {
            text_fault(tag, value)
        } else if self.kind == ActionKind::HttpRequest && tag == field_tag::METHODS {
            methods_bytes_fault(tag, value)
        } else {
            unknown::unknown_fault(tag)
        }
    }

    fn check(&self, tag: u16, value: &[u8]) -> (r: Option<FormatError>) {
        if is_constraint_text(self.kind, tag) {
            check_text(tag, value)
        } else if self.kind == ActionKind::HttpRequest && tag == field_tag::METHODS {
            match decode_methods(tag, value) {
                Ok(_) => None,
                Err(e) => Some(e),
            }
        } else {
            unknown_verdict(tag)
        }
    }
}

/// The text of a required field.
pub open spec fn text_in(rs: Seq<Rec>, tag: u16) -> Result<Seq<char>, FormatError> {
    match tlv::lookup(rs, tag) {
        Some(v) => Ok(decode_utf8(v)),
        None => Err(FormatError::MissingField { tag }),
    }
}

/// The text of a field that may be absent.
pub open spec fn opt_text_in(rs: Seq<Rec>, tag: u16) -> Option<Seq<char>> {
    match tlv::lookup(rs, tag) {
        Some(v) => Some(decode_utf8(v)),
        None => None,
    }
}

/// The limits that the records hold, or the first field that is absent.
pub open spec fn constraint_in(rs: Seq<Rec>, kind: ActionKind) -> Result<
    ConstraintView,
    FormatError,
> {
    match kind {
        ActionKind::GitPush => match (
            text_in(rs, field_tag::REMOTE),
            text_in(rs, field_tag::BRANCH),
        ) {
            (Err(e), _) => Err(e),
            (_, Err(e)) => Err(e),
            (Ok(remote), Ok(branch)) => Ok(ConstraintView::GitPush { remote, branch }),
        },
        ActionKind::TreeRemove => match text_in(rs, field_tag::PATH) {
            Err(e) => Err(e),
            Ok(prefix) => Ok(ConstraintView::TreeRemove { prefix }),
        },
        ActionKind::TreeRename => match (text_in(rs, field_tag::FROM), text_in(rs, field_tag::TO)) {
            (Err(e), _) => Err(e),
            (_, Err(e)) => Err(e),
            (Ok(from_prefix), Ok(to_prefix)) => Ok(
                ConstraintView::TreeRename { from_prefix, to_prefix },
            ),
        },
        ActionKind::HttpRequest => match (
            text_in(rs, field_tag::HOST),
            tlv::lookup(rs, field_tag::METHODS),
            text_in(rs, field_tag::PATH_PREFIX),
        ) {
            (Err(e), _, _) => Err(e),
            (_, None, _) => Err(FormatError::MissingField { tag: field_tag::METHODS }),
            (_, _, Err(e)) => Err(e),
            (Ok(host), Some(ms), Ok(path_prefix)) => Ok(
                ConstraintView::HttpRequest {
                    host,
                    methods: methods_of(field_tag::METHODS, ms)->Ok_0,
                    path_prefix,
                    secret_ref: opt_text_in(rs, field_tag::SECRET_REF),
                },
            ),
        },
    }
}

/// The limits of one kind of action that the bytes hold.
pub open spec fn constraint_of(b: Seq<u8>, kind: ActionKind) -> Result<
    ConstraintView,
    FormatError,
> {
    match tlv::read(ConstraintSchema { kind }, b) {
        Err(e) => Err(e),
        Ok(rs) => match constraint_in(rs, kind) {
            Err(e) => Err(e),
            Ok(c) => match constraint_fault(c) {
                Some(e) => Err(e),
                None => Ok(c),
            },
        },
    }
}

/// An optional field that is not known changes nothing in the limits that is read.
pub proof fn constraint_reads_past_optional_fields(b: Seq<u8>, kind: ActionKind)
    requires
        constraint_of(b, kind) is Ok,
    ensures
        constraint_of(unknown::without_optional(b), kind) == constraint_of(b, kind),
{
    unknown::optional_records_are_skipped(ConstraintSchema { kind }, b);
}

/// The limits survive being written and read back.
pub proof fn constraint_round_trip(c: ConstraintView)
    requires
        constraint_bytes(c) is Ok,
    ensures
        constraint_of(constraint_bytes(c)->Ok_0, c.kind()) == Ok::<ConstraintView, FormatError>(c),
{
    broadcast use {tlv::group_records, encode_utf8_decode_utf8, encode_utf8_valid_utf8};

    if let ConstraintView::HttpRequest { host, methods, path_prefix, secret_ref } = c {
        methods_round_trip(field_tag::METHODS, methods);
    }
    tlv::read_wire(ConstraintSchema { kind: c.kind() }, constraint_recs(c));
}

/// The first objection to the limits.
fn check_constraint(c: &Constraint) -> (r: Option<FormatError>)
    ensures
        r == constraint_fault(c@),
{
    match c {
        Constraint::GitPush { remote, branch } => {
            if let Some(e) = check_name(field_tag::REMOTE, remote.as_str()) {
                return Some(e);
            }
            check_tree_path(field_tag::BRANCH, branch.as_str())
        },
        Constraint::TreeRemove { prefix } => check_tree_path(field_tag::PATH, prefix.as_str()),
        Constraint::TreeRename { from_prefix, to_prefix } => {
            if let Some(e) = check_tree_path(field_tag::FROM, from_prefix.as_str()) {
                return Some(e);
            }
            check_tree_path(field_tag::TO, to_prefix.as_str())
        },
        Constraint::HttpRequest { host, methods, path_prefix, secret_ref } => {
            if let Some(e) = check_host(field_tag::HOST, host.as_str()) {
                return Some(e);
            }
            if let Some(e) = check_methods(field_tag::METHODS, methods) {
                return Some(e);
            }
            if let Some(e) = check_http_path(field_tag::PATH_PREFIX, path_prefix.as_str()) {
                return Some(e);
            }
            match secret_ref {
                Some(s) => check_secret_ref(field_tag::SECRET_REF, s.as_str()),
                None => None,
            }
        },
    }
}

/// Write the limits.
fn encode_constraint(c: &Constraint) -> (r: Result<Vec<u8>, FormatError>)
    ensures
        tlv::agrees(r, constraint_bytes(c@)),
{
    broadcast use tlv::group_records;

    refuse(check_constraint(c))?;
    let mut w = TlvWriter::new();
    match c {
        Constraint::GitPush { remote, branch } => {
            w.put(field_tag::REMOTE, remote.as_str().as_bytes())?;
            w.put(field_tag::BRANCH, branch.as_str().as_bytes())?;
        },
        Constraint::TreeRemove { prefix } => {
            w.put(field_tag::PATH, prefix.as_str().as_bytes())?;
        },
        Constraint::TreeRename { from_prefix, to_prefix } => {
            w.put(field_tag::FROM, from_prefix.as_str().as_bytes())?;
            w.put(field_tag::TO, to_prefix.as_str().as_bytes())?;
        },
        Constraint::HttpRequest { host, methods, path_prefix, secret_ref } => {
            w.put(field_tag::HOST, host.as_str().as_bytes())?;
            w.put(field_tag::METHODS, encode_methods(methods).as_slice())?;
            w.put(field_tag::PATH_PREFIX, path_prefix.as_str().as_bytes())?;
            if let Some(s) = secret_ref {
                w.put(field_tag::SECRET_REF, s.as_str().as_bytes())?;
            }
        },
    }
    Ok(w.finish())
}

/// Read the limits of one kind of action.
fn decode_constraint(b: &[u8], kind: ActionKind) -> (r: Result<Constraint, FormatError>)
    ensures
        tlv::agrees(r, constraint_of(b@, kind)),
{
    let fs = read_fields(&ConstraintSchema { kind }, b)?;
    let c = match kind {
        ActionKind::GitPush => {
            let remote = utf8_text(need(&fs, field_tag::REMOTE)?);
            let branch = utf8_text(need(&fs, field_tag::BRANCH)?);
            Constraint::GitPush { remote, branch }
        },
        ActionKind::TreeRemove => {
            let prefix = utf8_text(need(&fs, field_tag::PATH)?);
            Constraint::TreeRemove { prefix }
        },
        ActionKind::TreeRename => {
            let from_prefix = utf8_text(need(&fs, field_tag::FROM)?);
            let to_prefix = utf8_text(need(&fs, field_tag::TO)?);
            Constraint::TreeRename { from_prefix, to_prefix }
        },
        ActionKind::HttpRequest => {
            let host = utf8_text(need(&fs, field_tag::HOST)?);
            let methods = decode_methods(field_tag::METHODS, need(&fs, field_tag::METHODS)?)?;
            let path_prefix = utf8_text(need(&fs, field_tag::PATH_PREFIX)?);
            let secret_ref = match find(&fs, field_tag::SECRET_REF) {
                Some(v) => Some(utf8_text(v)),
                None => None,
            };
            Constraint::HttpRequest { host, methods, path_prefix, secret_ref }
        },
    };
    refuse(check_constraint(&c))?;
    Ok(c)
}

/// The first objection to arguments, field by field.
pub open spec fn args_fault(a: ArgsView) -> Option<FormatError> {
    match a {
        ArgsView::GitPush { remote, branch } => tlv::or_else(
            paths::name_fault(field_tag::REMOTE, remote),
            paths::tree_fault(field_tag::BRANCH, branch),
        ),
        ArgsView::TreeRemove { path } => paths::tree_fault(field_tag::PATH, path),
        ArgsView::TreeRename { from, to } => tlv::or_else(
            paths::tree_fault(field_tag::FROM, from),
            paths::tree_fault(field_tag::TO, to),
        ),
        ArgsView::HttpRequest { host, method, path, body_digest, body_len } => tlv::or_else(
            paths::host_fault(field_tag::HOST, host),
            tlv::or_else(
                paths::http_fault(field_tag::PATH_PREFIX, path),
                if body_len > MAX_BODY_LEN {
                    Some(
                        FormatError::BadFieldLength {
                            tag: field_tag::BODY_LEN,
                            len: body_len as usize,
                        },
                    )
                } else {
                    None
                },
            ),
        ),
    }
}

/// The records of arguments.
pub open spec fn args_recs(a: ArgsView) -> Seq<Rec> {
    let rs = Seq::<Rec>::empty();
    match a {
        ArgsView::GitPush { remote, branch } => rs.push(
            (field_tag::REMOTE, encode_utf8(remote)),
        ).push((field_tag::BRANCH, encode_utf8(branch))),
        ArgsView::TreeRemove { path } => rs.push((field_tag::PATH, encode_utf8(path))),
        ArgsView::TreeRename { from, to } => rs.push((field_tag::FROM, encode_utf8(from))).push(
            (field_tag::TO, encode_utf8(to)),
        ),
        ArgsView::HttpRequest { host, method, path, body_digest, body_len } => rs.push(
            (field_tag::HOST, encode_utf8(host)),
        ).push((field_tag::METHODS, seq![method.number()])).push(
            (field_tag::PATH_PREFIX, encode_utf8(path)),
        ).push((field_tag::BODY_DIGEST, body_digest)).push(
            (field_tag::BODY_LEN, bytes::le32(body_len)),
        ),
    }
}

/// The bytes of arguments.
pub open spec fn args_bytes(a: ArgsView) -> Result<Seq<u8>, FormatError> {
    match args_fault(a) {
        Some(e) => Err(e),
        None => tlv::sealed(args_recs(a)),
    }
}

/// The verdict on a byte that should be a method.
pub open spec fn method_fault(tag: u16, value: Seq<u8>) -> Option<FormatError> {
    if value.len() != 1 {
        Some(FormatError::BadFieldLength { tag, len: value.len() as usize })
    } else if Method::numbered(value[0]) is None {
        Some(FormatError::BadFieldLength { tag, len: 1 })
    } else {
        None
    }
}

/// The verdict on two bytes that should be a kind of action.
pub open spec fn kind_fault(tag: u16, value: Seq<u8>) -> Option<FormatError> {
    if value.len() != 2 {
        Some(FormatError::BadFieldLength { tag, len: value.len() as usize })
    } else if ActionKind::numbered(bytes::num16(value)) is None {
        Some(FormatError::BadFieldLength { tag, len: 2 })
    } else {
        None
    }
}

fn check_kind(tag: u16, value: &[u8]) -> (r: Option<FormatError>)
    ensures
        r == kind_fault(tag, value@),
{
    if value.len() != 2 {
        return Some(bad(tag, value.len()));
    }
    match ActionKind::from_u16(read16(value), tag) {
        Ok(_) => None,
        Err(e) => Some(e),
    }
}

/// The rule for the fields of the arguments of one kind of action.
pub struct ArgsSchema {
    pub kind: ActionKind,
}

/// The fields of arguments that hold a text.
pub open spec fn args_text(kind: ActionKind, tag: u16) -> bool {
    match kind {
        ActionKind::GitPush => tag == field_tag::REMOTE || tag == field_tag::BRANCH,
        ActionKind::TreeRemove => tag == field_tag::PATH,
        ActionKind::TreeRename => tag == field_tag::FROM || tag == field_tag::TO,
        ActionKind::HttpRequest => tag == field_tag::HOST || tag == field_tag::PATH_PREFIX,
    }
}

fn is_args_text(kind: ActionKind, tag: u16) -> (r: bool)
    ensures
        r == args_text(kind, tag),
{
    match kind {
        ActionKind::GitPush => tag == field_tag::REMOTE || tag == field_tag::BRANCH,
        ActionKind::TreeRemove => tag == field_tag::PATH,
        ActionKind::TreeRename => tag == field_tag::FROM || tag == field_tag::TO,
        ActionKind::HttpRequest => tag == field_tag::HOST || tag == field_tag::PATH_PREFIX,
    }
}

impl Schema for ArgsSchema {
    open spec fn fault(&self, tag: u16, value: Seq<u8>) -> Option<FormatError> {
        if args_text(self.kind, tag) {
            text_fault(tag, value)
        } else if self.kind == ActionKind::HttpRequest && tag == field_tag::METHODS {
            method_fault(tag, value)
        } else if self.kind == ActionKind::HttpRequest && tag == field_tag::BODY_DIGEST {
            tlv::length_fault(tag, value, 32)
        } else if self.kind == ActionKind::HttpRequest && tag == field_tag::BODY_LEN {
            tlv::length_fault(tag, value, 4)
        } else {
            unknown::unknown_fault(tag)
        }
    }

    fn check(&self, tag: u16, value: &[u8]) -> (r: Option<FormatError>) {
        if is_args_text(self.kind, tag) {
            check_text(tag, value)
        } else if self.kind == ActionKind::HttpRequest && tag == field_tag::METHODS {
            if value.len() != 1 {
                return Some(bad(tag, value.len()));
            }
            match Method::from_u8(value[0], tag) {
                Ok(_) => None,
                Err(e) => Some(e),
            }
        } else if self.kind == ActionKind::HttpRequest && tag == field_tag::BODY_DIGEST {
            check_length(tag, value, 32)
        } else if self.kind == ActionKind::HttpRequest && tag == field_tag::BODY_LEN {
            check_length(tag, value, 4)
        } else {
            unknown_verdict(tag)
        }
    }
}

/// The arguments that the records hold, or the first field that is absent.
pub open spec fn args_in(rs: Seq<Rec>, kind: ActionKind) -> Result<ArgsView, FormatError> {
    match kind {
        ActionKind::GitPush => match (
            text_in(rs, field_tag::REMOTE),
            text_in(rs, field_tag::BRANCH),
        ) {
            (Err(e), _) => Err(e),
            (_, Err(e)) => Err(e),
            (Ok(remote), Ok(branch)) => Ok(ArgsView::GitPush { remote, branch }),
        },
        ActionKind::TreeRemove => match text_in(rs, field_tag::PATH) {
            Err(e) => Err(e),
            Ok(path) => Ok(ArgsView::TreeRemove { path }),
        },
        ActionKind::TreeRename => match (text_in(rs, field_tag::FROM), text_in(rs, field_tag::TO)) {
            (Err(e), _) => Err(e),
            (_, Err(e)) => Err(e),
            (Ok(from), Ok(to)) => Ok(ArgsView::TreeRename { from, to }),
        },
        ActionKind::HttpRequest => if tlv::lookup(rs, field_tag::HOST) is None {
            Err(FormatError::MissingField { tag: field_tag::HOST })
        } else if tlv::lookup(rs, field_tag::METHODS) is None {
            Err(FormatError::MissingField { tag: field_tag::METHODS })
        } else if tlv::lookup(rs, field_tag::PATH_PREFIX) is None {
            Err(FormatError::MissingField { tag: field_tag::PATH_PREFIX })
        } else if tlv::lookup(rs, field_tag::BODY_DIGEST) is None {
            Err(FormatError::MissingField { tag: field_tag::BODY_DIGEST })
        } else if tlv::lookup(rs, field_tag::BODY_LEN) is None {
            Err(FormatError::MissingField { tag: field_tag::BODY_LEN })
        } else {
            Ok(
                ArgsView::HttpRequest {
                    host: decode_utf8(tlv::lookup(rs, field_tag::HOST)->0),
                    method: Method::numbered(tlv::lookup(rs, field_tag::METHODS)->0[0])->0,
                    path: decode_utf8(tlv::lookup(rs, field_tag::PATH_PREFIX)->0),
                    body_digest: tlv::lookup(rs, field_tag::BODY_DIGEST)->0,
                    body_len: bytes::num32(tlv::lookup(rs, field_tag::BODY_LEN)->0),
                },
            )
        },
    }
}

/// The arguments of one kind of action that the bytes hold.
pub open spec fn args_of(b: Seq<u8>, kind: ActionKind) -> Result<ArgsView, FormatError> {
    match tlv::read(ArgsSchema { kind }, b) {
        Err(e) => Err(e),
        Ok(rs) => match args_in(rs, kind) {
            Err(e) => Err(e),
            Ok(a) => match args_fault(a) {
                Some(e) => Err(e),
                None => Ok(a),
            },
        },
    }
}

/// An optional field that is not known changes nothing in the arguments that is read.
pub proof fn args_reads_past_optional_fields(b: Seq<u8>, kind: ActionKind)
    requires
        args_of(b, kind) is Ok,
    ensures
        args_of(unknown::without_optional(b), kind) == args_of(b, kind),
{
    unknown::optional_records_are_skipped(ArgsSchema { kind }, b);
}

/// Arguments survive being written and read back.
pub proof fn args_round_trip(a: ArgsView)
    requires
        a.sized(),
        args_bytes(a) is Ok,
    ensures
        args_of(args_bytes(a)->Ok_0, a.kind()) == Ok::<ArgsView, FormatError>(a),
{
    broadcast use {
        tlv::group_records,
        bytes::group_numbers,
        encode_utf8_decode_utf8,
        encode_utf8_valid_utf8,
    };

    tlv::read_wire(ArgsSchema { kind: a.kind() }, args_recs(a));
}

/// The first objection to arguments.
fn check_args(a: &Args) -> (r: Option<FormatError>)
    ensures
        r == args_fault(a@),
{
    match a {
        Args::GitPush { remote, branch } => {
            if let Some(e) = check_name(field_tag::REMOTE, remote.as_str()) {
                return Some(e);
            }
            check_tree_path(field_tag::BRANCH, branch.as_str())
        },
        Args::TreeRemove { path } => check_tree_path(field_tag::PATH, path.as_str()),
        Args::TreeRename { from, to } => {
            if let Some(e) = check_tree_path(field_tag::FROM, from.as_str()) {
                return Some(e);
            }
            check_tree_path(field_tag::TO, to.as_str())
        },
        Args::HttpRequest { host, method: _, path, body_digest: _, body_len } => {
            if let Some(e) = check_host(field_tag::HOST, host.as_str()) {
                return Some(e);
            }
            if let Some(e) = check_http_path(field_tag::PATH_PREFIX, path.as_str()) {
                return Some(e);
            }
            if *body_len > MAX_BODY_LEN {
                return Some(bad(field_tag::BODY_LEN, *body_len as usize));
            }
            None
        },
    }
}

/// Write arguments.
pub fn encode_args(a: &Args) -> (r: Result<Vec<u8>, FormatError>)
    ensures
        tlv::agrees(r, args_bytes(a@)),
{
    broadcast use {tlv::group_records, bytes::group_numbers};

    refuse(check_args(a))?;
    let mut w = TlvWriter::new();
    match a {
        Args::GitPush { remote, branch } => {
            w.put(field_tag::REMOTE, remote.as_str().as_bytes())?;
            w.put(field_tag::BRANCH, branch.as_str().as_bytes())?;
        },
        Args::TreeRemove { path } => {
            w.put(field_tag::PATH, path.as_str().as_bytes())?;
        },
        Args::TreeRename { from, to } => {
            w.put(field_tag::FROM, from.as_str().as_bytes())?;
            w.put(field_tag::TO, to.as_str().as_bytes())?;
        },
        Args::HttpRequest { host, method, path, body_digest, body_len } => {
            w.put(field_tag::HOST, host.as_str().as_bytes())?;
            w.put(field_tag::METHODS, one(method.as_u8()).as_slice())?;
            w.put(field_tag::PATH_PREFIX, path.as_str().as_bytes())?;
            w.put(field_tag::BODY_DIGEST, body_digest.as_slice())?;
            w.put(field_tag::BODY_LEN, write32(*body_len).as_slice())?;
        },
    }
    Ok(w.finish())
}

/// Read the arguments of one kind of action.
pub fn decode_args(b: &[u8], kind: ActionKind) -> (r: Result<Args, FormatError>)
    ensures
        tlv::agrees(r, args_of(b@, kind)),
{
    let fs = read_fields(&ArgsSchema { kind }, b)?;
    let a = match kind {
        ActionKind::GitPush => {
            let remote = utf8_text(need(&fs, field_tag::REMOTE)?);
            let branch = utf8_text(need(&fs, field_tag::BRANCH)?);
            Args::GitPush { remote, branch }
        },
        ActionKind::TreeRemove => {
            let path = utf8_text(need(&fs, field_tag::PATH)?);
            Args::TreeRemove { path }
        },
        ActionKind::TreeRename => {
            let from = utf8_text(need(&fs, field_tag::FROM)?);
            let to = utf8_text(need(&fs, field_tag::TO)?);
            Args::TreeRename { from, to }
        },
        ActionKind::HttpRequest => {
            let host = need(&fs, field_tag::HOST)?;
            let method = need(&fs, field_tag::METHODS)?;
            let path = need(&fs, field_tag::PATH_PREFIX)?;
            let digest = need(&fs, field_tag::BODY_DIGEST)?;
            let len = need(&fs, field_tag::BODY_LEN)?;
            Args::HttpRequest {
                host: utf8_text(host),
                method: Method::from_u8(method[0], field_tag::METHODS)?,
                path: utf8_text(path),
                body_digest: array(digest),
                body_len: read32(len),
            }
        },
    };
    refuse(check_args(&a))?;
    Ok(a)
}

/// The records of a rule whose limits have the given bytes.
pub open spec fn rule_recs(r: RuleView, limits: Seq<u8>) -> Seq<Rec> {
    Seq::<Rec>::empty().push((rule_tag::KIND, bytes::le16(r.kind.number()))).push(
        (rule_tag::CONSTRAINT, limits),
    ).push(
        (rule_tag::MAX_USES, bytes::le32(r.max_uses)),
    ).push((rule_tag::CONFIRM, bytes::flag(r.confirm))).push(
        (rule_tag::DELEGABLE, bytes::flag(r.delegable)),
    )
}

/// The bytes of a rule.
pub open spec fn rule_bytes(r: RuleView) -> Result<Seq<u8>, FormatError> {
    match rule_fault(r) {
        Some(e) => Err(e),
        None => match constraint_bytes(r.constraint) {
            Err(e) => Err(e),
            Ok(limits) => tlv::sealed(rule_recs(r, limits)),
        },
    }
}

/// The rule for the fields of a rule, each by itself.
pub struct RuleSchema;

impl Schema for RuleSchema {
    open spec fn fault(&self, tag: u16, value: Seq<u8>) -> Option<FormatError> {
        if tag == rule_tag::KIND {
            kind_fault(tag, value)
        } else if tag == rule_tag::CONSTRAINT {
            None
        } else if tag == rule_tag::MAX_USES {
            tlv::length_fault(tag, value, 4)
        } else if tag == rule_tag::CONFIRM || tag == rule_tag::DELEGABLE {
            tlv::flag_fault(tag, value)
        } else {
            unknown::unknown_fault(tag)
        }
    }

    fn check(&self, tag: u16, value: &[u8]) -> (r: Option<FormatError>) {
        if tag == rule_tag::KIND {
            check_kind(tag, value)
        } else if tag == rule_tag::CONSTRAINT {
            None
        } else if tag == rule_tag::MAX_USES {
            check_length(tag, value, 4)
        } else if tag == rule_tag::CONFIRM || tag == rule_tag::DELEGABLE {
            check_flag(tag, value)
        } else {
            unknown_verdict(tag)
        }
    }
}

/// The rule that the records hold, or what is wrong with them.
pub open spec fn rule_in(rs: Seq<Rec>) -> Result<RuleView, FormatError> {
    if tlv::lookup(rs, rule_tag::KIND) is None {
        Err(FormatError::MissingField { tag: rule_tag::KIND })
    } else if tlv::lookup(rs, rule_tag::CONSTRAINT) is None {
        Err(FormatError::MissingField { tag: rule_tag::CONSTRAINT })
    } else {
        let kind = ActionKind::numbered(bytes::num16(tlv::lookup(rs, rule_tag::KIND)->0))->0;
        match constraint_of(tlv::lookup(rs, rule_tag::CONSTRAINT)->0, kind) {
            Err(e) => Err(e),
            Ok(constraint) => if tlv::lookup(rs, rule_tag::MAX_USES) is None {
                Err(FormatError::MissingField { tag: rule_tag::MAX_USES })
            } else if tlv::lookup(rs, rule_tag::CONFIRM) is None {
                Err(FormatError::MissingField { tag: rule_tag::CONFIRM })
            } else if tlv::lookup(rs, rule_tag::DELEGABLE) is None {
                Err(FormatError::MissingField { tag: rule_tag::DELEGABLE })
            } else {
                Ok(
                    RuleView {
                        kind,
                        constraint,
                        max_uses: bytes::num32(tlv::lookup(rs, rule_tag::MAX_USES)->0),
                        confirm: tlv::lookup(rs, rule_tag::CONFIRM)->0[0] == 1,
                        delegable: tlv::lookup(rs, rule_tag::DELEGABLE)->0[0] == 1,
                    },
                )
            },
        }
    }
}

/// The rule that the bytes hold.
pub open spec fn rule_of(b: Seq<u8>) -> Result<RuleView, FormatError> {
    match tlv::read(RuleSchema, b) {
        Err(e) => Err(e),
        Ok(rs) => match rule_in(rs) {
            Err(e) => Err(e),
            Ok(r) => match rule_fault(r) {
                Some(e) => Err(e),
                None => Ok(r),
            },
        },
    }
}

/// An optional field that is not known changes nothing in the rule that is read.
pub proof fn rule_reads_past_optional_fields(b: Seq<u8>)
    requires
        rule_of(b) is Ok,
    ensures
        rule_of(unknown::without_optional(b)) == rule_of(b),
{
    unknown::optional_records_are_skipped(RuleSchema, b);
}

/// A rule survives being written and read back.
pub proof fn rule_round_trip(r: RuleView)
    requires
        rule_bytes(r) is Ok,
    ensures
        rule_of(rule_bytes(r)->Ok_0) == Ok::<RuleView, FormatError>(r),
{
    broadcast use {tlv::group_records, bytes::group_numbers};

    let limits = constraint_bytes(r.constraint)->Ok_0;
    constraint_round_trip(r.constraint);
    assert(ActionKind::numbered(r.kind.number()) == Some(r.kind));
    tlv::read_wire(RuleSchema, rule_recs(r, limits));
}

/// The first objection to a rule.
pub fn check_rule_shape(rule: &ActionRule) -> (r: Result<(), FormatError>)
    ensures
        match rule_fault(rule@) {
            Some(e) => r == Err::<(), FormatError>(e),
            None => r is Ok,
        },
{
    if rule.kind != rule.constraint.kind() {
        return Err(bad(rule_tag::KIND, 2));
    }
    refuse(check_constraint(&rule.constraint))
}

/// Write a rule.
pub fn encode_rule(rule: &ActionRule) -> (r: Result<Vec<u8>, FormatError>)
    ensures
        tlv::agrees(r, rule_bytes(rule@)),
{
    broadcast use {tlv::group_records, bytes::group_numbers};

    check_rule_shape(rule)?;
    let limits = encode_constraint(&rule.constraint)?;
    let mut w = TlvWriter::new();
    w.put(rule_tag::KIND, write16(rule.kind.as_u16()).as_slice())?;
    w.put(rule_tag::CONSTRAINT, limits.as_slice())?;
    w.put(rule_tag::MAX_USES, write32(rule.max_uses).as_slice())?;
    w.put(rule_tag::CONFIRM, flag_byte(rule.confirm).as_slice())?;
    w.put(rule_tag::DELEGABLE, flag_byte(rule.delegable).as_slice())?;
    Ok(w.finish())
}

/// Read a rule.
pub fn decode_rule(b: &[u8]) -> (r: Result<ActionRule, FormatError>)
    ensures
        tlv::agrees(r, rule_of(b@)),
{
    let fs = read_fields(&RuleSchema, b)?;
    let kind = need(&fs, rule_tag::KIND)?;
    let limits = need(&fs, rule_tag::CONSTRAINT)?;
    let kind = ActionKind::from_u16(read16(kind), rule_tag::KIND)?;
    let constraint = decode_constraint(limits, kind)?;
    let max_uses = need(&fs, rule_tag::MAX_USES)?;
    let confirm = need(&fs, rule_tag::CONFIRM)?;
    let delegable = need(&fs, rule_tag::DELEGABLE)?;
    let rule = ActionRule {
        kind,
        constraint,
        max_uses: read32(max_uses),
        confirm: confirm[0] == 1,
        delegable: delegable[0] == 1,
    };
    check_rule_shape(&rule)?;
    Ok(rule)
}

/// What several rules say.
pub open spec fn rule_views(rules: Seq<ActionRule>) -> Seq<RuleView> {
    rules.map_values(|r: ActionRule| r@)
}

/// The records of several rules, numbered from zero.
pub open spec fn rules_recs(rules: Seq<RuleView>) -> Result<Seq<Rec>, FormatError>
    decreases rules.len(),
{
    if rules.len() == 0 {
        Ok(Seq::empty())
    } else {
        match rules_recs(rules.drop_last()) {
            Err(e) => Err(e),
            Ok(rs) => match rule_bytes(rules.last()) {
                Err(e) => Err(e),
                Ok(b) => if b.len() <= u32::MAX {
                    Ok(rs.push(((rules.len() - 1) as u16, b)))
                } else {
                    Err(FormatError::OffsetOverflow)
                },
            },
        }
    }
}

/// The bytes of several rules.
pub open spec fn rules_bytes(rules: Seq<RuleView>) -> Result<Seq<u8>, FormatError> {
    if rules.len() > MAX_ACTION_RULES {
        Err(FormatError::BadFieldLength { tag: grant_tag::RULES, len: rules.len() as usize })
    } else {
        match rules_recs(rules) {
            Err(e) => Err(e),
            Ok(rs) => Ok(tlv::wire(rs)),
        }
    }
}

/// The rules that records hold, whatever their tags are.
pub open spec fn rules_in(rs: Seq<Rec>) -> Result<Seq<RuleView>, FormatError>
    decreases rs.len(),
{
    if rs.len() == 0 {
        Ok(Seq::empty())
    } else {
        match rules_in(rs.drop_last()) {
            Err(e) => Err(e),
            Ok(rules) => if rules.len() >= MAX_ACTION_RULES {
                Err(
                    FormatError::BadFieldLength {
                        tag: grant_tag::RULES,
                        len: rules.len() as usize,
                    },
                )
            } else {
                match rule_of(rs.last().1) {
                    Err(e) => Err(e),
                    Ok(r) => Ok(rules.push(r)),
                }
            },
        }
    }
}

/// The rules that the bytes hold.
pub open spec fn rules_of(b: Seq<u8>) -> Result<Seq<RuleView>, FormatError> {
    let (rs, torn) = tlv::scan(b, None);
    match rules_in(rs) {
        Err(e) => Err(e),
        Ok(rules) => match torn {
            Some(e) => Err(e),
            None => Ok(rules),
        },
    }
}

proof fn rules_recs_are_writable(rules: Seq<RuleView>)
    requires
        rules.len() <= MAX_ACTION_RULES,
        rules_recs(rules) is Ok,
    ensures
        tlv::writable(rules_recs(rules)->Ok_0),
        tlv::below(rules_recs(rules)->Ok_0, rules.len() as u16),
        rules_recs(rules)->Ok_0.len() == rules.len(),
        rules_in(rules_recs(rules)->Ok_0) == Ok::<Seq<RuleView>, FormatError>(rules),
    decreases rules.len(),
{
    broadcast use tlv::group_records;

    if rules.len() > 0 {
        rules_recs_are_writable(rules.drop_last());
        let before = rules_recs(rules.drop_last())->Ok_0;
        let b = rule_bytes(rules.last())->Ok_0;
        let t = (rules.len() - 1) as u16;
        assert(rules_recs(rules)->Ok_0.drop_last() =~= before);
        rule_round_trip(rules.last());
        tlv::below_is_monotone(before, t, rules.len() as u16);
        assert(rules.drop_last().push(rules.last()) =~= rules);
    } else {
        assert(rules =~= Seq::empty());
    }
}

/// Several rules survive being written and read back.
pub proof fn rules_round_trip(rules: Seq<RuleView>)
    requires
        rules_bytes(rules) is Ok,
    ensures
        rules_of(rules_bytes(rules)->Ok_0) == Ok::<Seq<RuleView>, FormatError>(rules),
{
    rules_recs_are_writable(rules);
    tlv::scan_wire(rules_recs(rules)->Ok_0);
}

proof fn rules_recs_prefix(a: Seq<RuleView>, n: int)
    requires
        0 <= n <= a.len(),
        rules_recs(a.take(n)) is Err,
    ensures
        rules_recs(a) == rules_recs(a.take(n)),
    decreases a.len() - n,
{
    if n == a.len() {
        assert(a.take(n) =~= a);
    } else {
        assert(a.take(n + 1).drop_last() =~= a.take(n));
        rules_recs_prefix(a, n + 1);
    }
}

proof fn rules_in_prefix(a: Seq<Rec>, b: Seq<Rec>)
    requires
        rules_in(a) is Err,
    ensures
        rules_in(a + b) == rules_in(a),
    decreases b.len(),
{
    if b.len() == 0 {
        assert(a + b =~= a);
    } else {
        rules_in_prefix(a, b.drop_last());
        assert((a + b).drop_last() =~= a + b.drop_last());
    }
}

/// Write several rules.
pub(crate) fn encode_rules(rules: &Vec<ActionRule>) -> (r: Result<Vec<u8>, FormatError>)
    ensures
        tlv::agrees(r, rules_bytes(rule_views(rules@))),
{
    broadcast use tlv::group_records;

    if rules.len() > MAX_ACTION_RULES {
        return Err(bad(grant_tag::RULES, rules.len()));
    }
    let ghost all = rule_views(rules@);
    let mut w = TlvWriter::new();
    let mut i: usize = 0;
    assert(all.take(0) =~= Seq::empty());
    while i < rules.len()
        invariant
            i <= rules@.len() <= MAX_ACTION_RULES,
            all == rule_views(rules@),
            rules_recs(all.take(i as int)) == Ok::<Seq<Rec>, FormatError>(w@),
        decreases rules@.len() - i,
    {
        let ghost head = all.take(i as int + 1);
        proof {
            assert(head.drop_last() =~= all.take(i as int));
            assert(head.last() == rules@[i as int]@);
            rules_recs_are_writable(all.take(i as int));
        }
        let b = match encode_rule(&rules[i]) {
            Ok(b) => b,
            Err(e) => {
                proof {
                    rules_recs_prefix(all, i as int + 1);
                }
                return Err(e);
            },
        };
        match w.put(i as u16, b.as_slice()) {
            Ok(_) => {},
            Err(e) => {
                proof {
                    rules_recs_prefix(all, i as int + 1);
                }
                return Err(e);
            },
        }
        i = i + 1;
    }
    assert(all.take(i as int) =~= all);
    Ok(w.finish())
}

/// Read several rules.
pub(crate) fn decode_rules(b: &[u8]) -> (r: Result<Vec<ActionRule>, FormatError>)
    ensures
        match r {
            Ok(rules) => rules_of(b@) == Ok::<Seq<RuleView>, FormatError>(rule_views(rules@)),
            Err(e) => rules_of(b@) == Err::<Seq<RuleView>, FormatError>(e),
        },
{
    let mut out: Vec<ActionRule> = Vec::new();
    let mut reader = TlvReader::new(b);
    let ghost mut done: Seq<Rec> = Seq::empty();
    assert(rule_views(out@) =~= Seq::empty());
    assert(tlv::scan(b@, None).0 =~= done + reader@.0);
    loop
        invariant
            tlv::scan(b@, None).0 == done + reader@.0,
            tlv::scan(b@, None).1 == reader@.1,
            rules_in(done) == Ok::<Seq<RuleView>, FormatError>(rule_views(out@)),
            out@.len() <= MAX_ACTION_RULES,
        decreases reader.left(),
    {
        match reader.next_field() {
            Ok(Some(f)) => {
                let ghost rec: Rec = (f.tag, f.value@);
                let ghost more = done.push(rec);
                proof {
                    assert(done + (seq![rec] + reader@.0) =~= more + reader@.0);
                    assert(more.drop_last() =~= done);
                }
                if out.len() >= MAX_ACTION_RULES {
                    proof {
                        rules_in_prefix(more, reader@.0);
                    }
                    return Err(bad(grant_tag::RULES, out.len()));
                }
                match decode_rule(f.value) {
                    Ok(rule) => {
                        let ghost before = rule_views(out@);
                        out.push(rule);
                        proof {
                            assert(rule_views(out@) =~= before.push(rule@));
                            done = more;
                        }
                    },
                    Err(e) => {
                        proof {
                            rules_in_prefix(more, reader@.0);
                        }
                        return Err(e);
                    },
                }
            },
            Ok(None) => {
                assert(done + Seq::<Rec>::empty() =~= done);
                return Ok(out);
            },
            Err(e) => {
                assert(done + Seq::<Rec>::empty() =~= done);
                return Err(e);
            },
        }
    }
}

/// The verdict on bytes that should hold rules.
pub open spec fn rules_fault(b: Seq<u8>) -> Option<FormatError> {
    match rules_of(b) {
        Ok(_) => None,
        Err(e) => Some(e),
    }
}

/// The verdict on bytes that should hold rules.
pub(crate) fn check_rules(b: &[u8]) -> (r: Option<FormatError>)
    ensures
        r == rules_fault(b@),
{
    match decode_rules(b) {
        Ok(_) => None,
        Err(e) => Some(e),
    }
}

/// The key by which the uses of a rule are counted: the kind and the limits, and
/// neither the number of uses nor the flags.
pub open spec fn limiter_bytes(r: RuleView) -> Result<Seq<u8>, FormatError> {
    match constraint_bytes(r.constraint) {
        Err(e) => Err(e),
        Ok(limits) => Ok(bytes::le16(r.kind.number()) + limits),
    }
}

/// Two rules that differ in the number of uses and in the flags are counted
/// together.
pub proof fn limiter_key_is_blind_to_uses(a: RuleView, b: RuleView)
    requires
        a.kind == b.kind,
        a.constraint == b.constraint,
    ensures
        limiter_bytes(a) == limiter_bytes(b),
{
}

/// The first field of the limits tells which kind of action they are for.
proof fn limits_tell_their_kind(c: ConstraintView)
    requires
        constraint_bytes(c) is Ok,
    ensures
        tlv::writable(constraint_recs(c)),
        constraint_recs(c).len() > 0,
        constraint_recs(c)[0].0 == match c {
            ConstraintView::GitPush { .. } => field_tag::REMOTE,
            ConstraintView::TreeRemove { .. } => field_tag::PATH,
            ConstraintView::TreeRename { .. } => field_tag::FROM,
            ConstraintView::HttpRequest { .. } => field_tag::HOST,
        },
{
    broadcast use tlv::group_records;

}

/// Two rules with the same key have the same kind and the same limits.
pub proof fn limiter_key_tells_limits_apart(a: RuleView, b: RuleView)
    requires
        limiter_bytes(a) is Ok,
        limiter_bytes(a) == limiter_bytes(b),
    ensures
        a.kind == b.kind,
        a.constraint == b.constraint,
{
    broadcast use bytes::group_numbers;

    let x = limiter_bytes(a)->Ok_0;
    let ca = constraint_bytes(a.constraint)->Ok_0;
    let cb = constraint_bytes(b.constraint)->Ok_0;
    assert(x.take(2) =~= bytes::le16(a.kind.number()));
    assert(x.take(2) =~= bytes::le16(b.kind.number()));
    assert(x.skip(2) =~= ca);
    assert(x.skip(2) =~= cb);
    limits_tell_their_kind(a.constraint);
    limits_tell_their_kind(b.constraint);
    tlv::scan_wire(constraint_recs(a.constraint));
    tlv::scan_wire(constraint_recs(b.constraint));
    assert(a.constraint.kind() == b.constraint.kind());
    constraint_round_trip(a.constraint);
    constraint_round_trip(b.constraint);
}

/// The key by which the uses of a rule are counted.
pub fn limiter_key(rule: &ActionRule) -> (r: Result<Vec<u8>, FormatError>)
    ensures
        tlv::agrees(r, limiter_bytes(rule@)),
{
    let limits = encode_constraint(&rule.constraint)?;
    let mut out = write16(rule.kind.as_u16());
    append(&mut out, limits.as_slice());
    Ok(out)
}

/// The bytes of a signed document: the signature, then the body.
pub open spec fn signed_bytes(signature: Seq<u8>, body: Result<Seq<u8>, FormatError>) -> Result<
    Seq<u8>,
    FormatError,
> {
    match body {
        Err(e) => Err(e),
        Ok(b) => Ok(signature + b),
    }
}

/// Part the signature from the body. Bytes too short for a signature have a bad one.
pub(crate) fn split_signature<'a>(bytes: &'a [u8]) -> (r: Result<
    ([u8; SIGNATURE_LEN], &'a [u8]),
    FormatError,
>)
    ensures
        match r {
            Ok((signature, body)) => bytes@.len() >= SIGNATURE_LEN && signature@ == bytes@.take(
                SIGNATURE_LEN as int,
            ) && body@ == bytes@.skip(SIGNATURE_LEN as int),
            Err(e) => bytes@.len() < SIGNATURE_LEN && e == FormatError::BadHeaderSignature,
        },
{
    if bytes.len() < SIGNATURE_LEN {
        return Err(FormatError::BadHeaderSignature);
    }
    let head = part(bytes, 0, SIGNATURE_LEN);
    let body = part(bytes, SIGNATURE_LEN, bytes.len());
    assert(head@ =~= bytes@.take(SIGNATURE_LEN as int));
    assert(body@ =~= bytes@.skip(SIGNATURE_LEN as int));
    Ok((array(head), body))
}

/// The bytes of a signed document.
pub(crate) fn with_signature(signature: &[u8; SIGNATURE_LEN], body: &[u8]) -> (r: Vec<u8>)
    ensures
        r@ == signature@ + body@,
{
    let mut out = owned(signature.as_slice());
    append(&mut out, body);
    out
}

/// The signature and the body of a signed document are found again.
pub proof fn signature_parts(signature: Seq<u8>, body: Seq<u8>)
    requires
        signature.len() == SIGNATURE_LEN,
    ensures
        (signature + body).take(SIGNATURE_LEN as int) == signature,
        (signature + body).skip(SIGNATURE_LEN as int) == body,
{
    assert((signature + body).take(SIGNATURE_LEN as int) =~= signature);
    assert((signature + body).skip(SIGNATURE_LEN as int) =~= body);
}

/// What an author permits an agent to do.
#[derive(Debug, Clone, PartialEq, Eq)]
pub struct ActionGrant {
    pub grant_id: [u8; 16],
    pub rules: Vec<ActionRule>,
    pub issued_at: i64,
    pub expires_at: i64,
    pub author_key: [u8; 32],
    pub signature: [u8; SIGNATURE_LEN],
}

/// What an action grant says.
pub struct ActionGrantView {
    pub grant_id: Seq<u8>,
    pub rules: Seq<RuleView>,
    pub issued_at: i64,
    pub expires_at: i64,
    pub author_key: Seq<u8>,
    pub signature: Seq<u8>,
}

impl View for ActionGrant {
    type V = ActionGrantView;

    open spec fn view(&self) -> ActionGrantView {
        ActionGrantView {
            grant_id: self.grant_id@,
            rules: rule_views(self.rules@),
            issued_at: self.issued_at,
            expires_at: self.expires_at,
            author_key: self.author_key@,
            signature: self.signature@,
        }
    }
}

/// The first objection to several rules.
pub open spec fn first_rule_fault(rules: Seq<RuleView>) -> Option<FormatError>
    decreases rules.len(),
{
    if rules.len() == 0 {
        None
    } else {
        tlv::or_else(rule_fault(rules[0]), first_rule_fault(rules.drop_first()))
    }
}

impl ActionGrantView {
    /// The fields of fixed length have it.
    pub open spec fn sized(self) -> bool {
        self.grant_id.len() == 16 && self.author_key.len() == 32 && self.signature.len()
            == SIGNATURE_LEN
    }

    /// The first objection to the grant.
    pub open spec fn fault(self) -> Option<FormatError> {
        if self.rules.len() > MAX_ACTION_RULES {
            Some(
                FormatError::BadFieldLength {
                    tag: grant_tag::RULES,
                    len: self.rules.len() as usize,
                },
            )
        } else {
            tlv::or_else(
                first_rule_fault(self.rules),
                if self.expires_at < self.issued_at {
                    Some(FormatError::BadFieldLength { tag: grant_tag::EXPIRES_AT, len: 8 })
                } else {
                    None
                },
            )
        }
    }

    /// The records of the body, where the rules have the given bytes.
    pub open spec fn recs(self, rules: Seq<u8>) -> Seq<Rec> {
        Seq::<Rec>::empty().push((grant_tag::GRANT_ID, self.grant_id)).push(
            (grant_tag::RULES, rules),
        ).push((grant_tag::ISSUED_AT, bytes::le64s(self.issued_at))).push(
            (grant_tag::EXPIRES_AT, bytes::le64s(self.expires_at)),
        ).push((grant_tag::AUTHOR_KEY, self.author_key))
    }
}

/// The bytes of a grant that are signed.
pub open spec fn grant_body_bytes(g: ActionGrantView) -> Result<Seq<u8>, FormatError> {
    match g.fault() {
        Some(e) => Err(e),
        None => match rules_bytes(g.rules) {
            Err(e) => Err(e),
            Ok(rules) => tlv::sealed(g.recs(rules)),
        },
    }
}

/// The rule for the fields of an action grant.
pub struct ActionGrantSchema;

impl Schema for ActionGrantSchema {
    open spec fn fault(&self, tag: u16, value: Seq<u8>) -> Option<FormatError> {
        if tag == grant_tag::GRANT_ID {
            tlv::length_fault(tag, value, 16)
        } else if tag == grant_tag::RULES {
            rules_fault(value)
        } else if tag == grant_tag::ISSUED_AT || tag == grant_tag::EXPIRES_AT {
            tlv::length_fault(tag, value, 8)
        } else if tag == grant_tag::AUTHOR_KEY {
            tlv::length_fault(tag, value, 32)
        } else {
            unknown::unknown_fault(tag)
        }
    }

    fn check(&self, tag: u16, value: &[u8]) -> (r: Option<FormatError>) {
        if tag == grant_tag::GRANT_ID {
            check_length(tag, value, 16)
        } else if tag == grant_tag::RULES {
            check_rules(value)
        } else if tag == grant_tag::ISSUED_AT || tag == grant_tag::EXPIRES_AT {
            check_length(tag, value, 8)
        } else if tag == grant_tag::AUTHOR_KEY {
            check_length(tag, value, 32)
        } else {
            unknown_verdict(tag)
        }
    }
}

/// The grant that the records hold, or the first field that is absent.
pub open spec fn action_grant_in(
    rs: Seq<Rec>,
    signature: Seq<u8>,
) -> Result<ActionGrantView, FormatError> {
    if tlv::lookup(rs, grant_tag::GRANT_ID) is None {
        Err(FormatError::MissingField { tag: grant_tag::GRANT_ID })
    } else if tlv::lookup(rs, grant_tag::RULES) is None {
        Err(FormatError::MissingField { tag: grant_tag::RULES })
    } else if tlv::lookup(rs, grant_tag::ISSUED_AT) is None {
        Err(FormatError::MissingField { tag: grant_tag::ISSUED_AT })
    } else if tlv::lookup(rs, grant_tag::EXPIRES_AT) is None {
        Err(FormatError::MissingField { tag: grant_tag::EXPIRES_AT })
    } else if tlv::lookup(rs, grant_tag::AUTHOR_KEY) is None {
        Err(FormatError::MissingField { tag: grant_tag::AUTHOR_KEY })
    } else {
        Ok(
            ActionGrantView {
                grant_id: tlv::lookup(rs, grant_tag::GRANT_ID)->0,
                rules: rules_of(tlv::lookup(rs, grant_tag::RULES)->0)->Ok_0,
                issued_at: bytes::num64s(tlv::lookup(rs, grant_tag::ISSUED_AT)->0),
                expires_at: bytes::num64s(tlv::lookup(rs, grant_tag::EXPIRES_AT)->0),
                author_key: tlv::lookup(rs, grant_tag::AUTHOR_KEY)->0,
                signature: signature,
            },
        )
    }
}

/// The grant that a body holds under a signature.
pub open spec fn grant_body_of(body: Seq<u8>, signature: Seq<u8>) -> Result<
    ActionGrantView,
    FormatError,
> {
    match tlv::read(ActionGrantSchema, body) {
        Err(e) => Err(e),
        Ok(rs) => match action_grant_in(rs, signature) {
            Err(e) => Err(e),
            Ok(g) => match g.fault() {
                Some(e) => Err(e),
                None => Ok(g),
            },
        },
    }
}

/// An optional field that is not known changes nothing in the grant that is read.
pub proof fn action_grant_reads_past_optional_fields(body: Seq<u8>, signature: Seq<u8>)
    requires
        grant_body_of(body, signature) is Ok,
    ensures
        grant_body_of(unknown::without_optional(body), signature) == grant_body_of(body, signature),
{
    unknown::optional_records_are_skipped(ActionGrantSchema, body);
}

/// The grant that the bytes hold, whoever signed them.
pub open spec fn peeked_grant(b: Seq<u8>) -> Result<ActionGrantView, FormatError> {
    if b.len() < SIGNATURE_LEN {
        Err(FormatError::BadHeaderSignature)
    } else {
        grant_body_of(b.skip(SIGNATURE_LEN as int), b.take(SIGNATURE_LEN as int))
    }
}

/// The grant that the bytes hold, where `signed` says whether the signature holds
/// under the author's key. Nothing is read of a body that is not signed.
pub open spec fn opened_grant(b: Seq<u8>, signed: bool, author_key: Seq<u8>) -> Result<
    ActionGrantView,
    FormatError,
> {
    if b.len() < SIGNATURE_LEN || !signed {
        Err(FormatError::BadHeaderSignature)
    } else {
        match peeked_grant(b) {
            Err(e) => Err(e),
            Ok(g) => if g.author_key == author_key {
                Ok(g)
            } else {
                Err(FormatError::BadFieldLength { tag: grant_tag::AUTHOR_KEY, len: 32 })
            },
        }
    }
}

/// Under a signature that does not hold, no body is told from another: each is refused alike.
pub proof fn unsigned_grant_is_refused(b: Seq<u8>, author_key: Seq<u8>)
    ensures
        opened_grant(b, false, author_key)
            == Err::<ActionGrantView, FormatError>(FormatError::BadHeaderSignature),
{
}

/// A signed grant survives being written and read back.
pub proof fn action_grant_round_trip(g: ActionGrantView)
    requires
        g.sized(),
        grant_body_bytes(g) is Ok,
    ensures
        opened_grant(
            signed_bytes(g.signature, grant_body_bytes(g))->Ok_0,
            true,
            g.author_key,
        ) == Ok::<ActionGrantView, FormatError>(g),
{
    broadcast use {tlv::group_records, bytes::group_numbers};

    let rules = rules_bytes(g.rules)->Ok_0;
    rules_round_trip(g.rules);
    signature_parts(g.signature, grant_body_bytes(g)->Ok_0);
    tlv::read_wire(ActionGrantSchema, g.recs(rules));
}

/// A grant that was opened is sound, names the key it was opened with, and obeys
/// the limits on rules.
pub proof fn opened_grant_is_sound(b: Seq<u8>, signed: bool, author_key: Seq<u8>)
    requires
        opened_grant(b, signed, author_key) is Ok,
    ensures
        signed,
        opened_grant(b, signed, author_key)->Ok_0.author_key == author_key,
        opened_grant(b, signed, author_key)->Ok_0.fault() is None,
{
}

/// A grant of actions that was opened was read from the very body that its signature was
/// checked over.
pub proof fn grant_is_read_from_what_was_signed(b: Seq<u8>, author_key: Seq<u8>)
    requires
        opened_grant(b, true, author_key) is Ok,
    ensures
        transcript::claimed(Label::ActionGrant, b, author_key) is Ok,
        ({
            let claim = transcript::claimed(Label::ActionGrant, b, author_key)->Ok_0;
            opened_grant(b, true, author_key)
                == grant_body_of(claim.transcript.body, claim.signature)
        }),
{
}

/// The first objection to several rules.
pub(crate) fn check_each_rule(rules: &Vec<ActionRule>) -> (r: Option<FormatError>)
    ensures
        r == first_rule_fault(rule_views(rules@)),
{
    let ghost all = rule_views(rules@);
    let mut i: usize = 0;
    assert(all.skip(0) =~= all);
    while i < rules.len()
        invariant
            i <= rules@.len(),
            all == rule_views(rules@),
            first_rule_fault(all) == first_rule_fault(all.skip(i as int)),
        decreases rules@.len() - i,
    {
        assert(all.skip(i as int).drop_first() =~= all.skip(i as int + 1));
        assert(all.skip(i as int)[0] == rules@[i as int]@);
        if let Err(e) = check_rule_shape(&rules[i]) {
            return Some(e);
        }
        i = i + 1;
    }
    None
}

/// The first objection to a grant.
fn check_grant(g: &ActionGrant) -> (r: Option<FormatError>)
    ensures
        r == g@.fault(),
{
    if g.rules.len() > MAX_ACTION_RULES {
        return Some(bad(grant_tag::RULES, g.rules.len()));
    }
    if let Some(e) = check_each_rule(&g.rules) {
        return Some(e);
    }
    if g.expires_at < g.issued_at {
        return Some(bad(grant_tag::EXPIRES_AT, 8));
    }
    None
}

/// The bytes of a grant that are signed.
pub fn grant_body(grant: &ActionGrant) -> (r: Result<Vec<u8>, FormatError>)
    ensures
        tlv::agrees(r, grant_body_bytes(grant@)),
{
    broadcast use {tlv::group_records, bytes::group_numbers};

    refuse(check_grant(grant))?;
    let rules = encode_rules(&grant.rules)?;
    let mut w = TlvWriter::new();
    w.put(grant_tag::GRANT_ID, grant.grant_id.as_slice())?;
    w.put(grant_tag::RULES, rules.as_slice())?;
    w.put(grant_tag::ISSUED_AT, write64s(grant.issued_at).as_slice())?;
    w.put(grant_tag::EXPIRES_AT, write64s(grant.expires_at).as_slice())?;
    w.put(grant_tag::AUTHOR_KEY, grant.author_key.as_slice())?;
    Ok(w.finish())
}

/// What the author signs of a grant of actions.
pub fn grant_transcript(body: &[u8]) -> (r: Transcript)
    ensures
        r@ == (TranscriptView { label: Label::ActionGrant, body: body@ }),
{
    Transcript::new(Label::ActionGrant, body)
}

/// Write a signed grant.
pub fn encode_grant(grant: &ActionGrant) -> (r: Result<Vec<u8>, FormatError>)
    ensures
        tlv::agrees(r, signed_bytes(grant@.signature, grant_body_bytes(grant@))),
{
    let body = grant_body(grant)?;
    Ok(with_signature(&grant.signature, body.as_slice()))
}

/// Read the body of a grant under a signature.
fn decode_grant_body(body: &[u8], signature: [u8; SIGNATURE_LEN]) -> (r: Result<
    ActionGrant,
    FormatError,
>)
    ensures
        tlv::agrees(r, grant_body_of(body@, signature@)),
{
    let fs = read_fields(&ActionGrantSchema, body)?;
    let grant_id = need(&fs, grant_tag::GRANT_ID)?;
    let rules = need(&fs, grant_tag::RULES)?;
    let issued_at = need(&fs, grant_tag::ISSUED_AT)?;
    let expires_at = need(&fs, grant_tag::EXPIRES_AT)?;
    let author_key = need(&fs, grant_tag::AUTHOR_KEY)?;
    let grant = ActionGrant {
        grant_id: array(grant_id),
        rules: decode_rules(rules)?,
        issued_at: read64s(issued_at),
        expires_at: read64s(expires_at),
        author_key: array(author_key),
        signature,
    };
    refuse(check_grant(&grant))?;
    Ok(grant)
}

/// Read a grant whoever signed it: for who keeps what was checked before.
pub fn peek_grant(bytes: &[u8]) -> (r: Result<ActionGrant, FormatError>)
    ensures
        tlv::agrees(r, peeked_grant(bytes@)),
{
    let (signature, body) = split_signature(bytes)?;
    decode_grant_body(body, signature)
}

/// The signature that is to be checked before a grant of actions is read.
pub fn grant_claim(bytes: &[u8], author_key: &[u8; 32]) -> (r: Result<Claim, FormatError>)
    ensures
        tlv::agrees(r, transcript::claimed(Label::ActionGrant, bytes@, author_key@)),
{
    transcript::claim(Label::ActionGrant, bytes, author_key)
}

/// Read a signed grant. `signed` says whether the signature over the body (see
/// [`grant_claim`]) holds under the author's key; the body names the same key.
pub fn decode_grant(bytes: &[u8], author_key: &[u8; 32], signed: bool) -> (r: Result<
    ActionGrant,
    FormatError,
>)
    ensures
        tlv::agrees(r, opened_grant(bytes@, signed, author_key@)),
{
    let (signature, body) = split_signature(bytes)?;
    if !signed {
        return Err(FormatError::BadHeaderSignature);
    }
    let grant = decode_grant_body(body, signature)?;
    if !same(grant.author_key.as_slice(), author_key.as_slice()) {
        return Err(bad(grant_tag::AUTHOR_KEY, 32));
    }
    Ok(grant)
}

/// A request for one action.
#[derive(Debug, Clone, PartialEq, Eq)]
pub struct ActionRequest {
    pub grant_id: [u8; 16],
    pub door_fpr: [u8; 32],
    pub kind: ActionKind,
    pub args: Args,
    pub nonce: [u8; 16],
    pub note: String,
}

/// What a request for an action says.
pub struct ActionRequestView {
    pub grant_id: Seq<u8>,
    pub door_fpr: Seq<u8>,
    pub kind: ActionKind,
    pub args: ArgsView,
    pub nonce: Seq<u8>,
    pub note: Seq<char>,
}

impl View for ActionRequest {
    type V = ActionRequestView;

    open spec fn view(&self) -> ActionRequestView {
        ActionRequestView {
            grant_id: self.grant_id@,
            door_fpr: self.door_fpr@,
            kind: self.kind,
            args: self.args@,
            nonce: self.nonce@,
            note: self.note@,
        }
    }
}

impl ActionRequestView {
    /// The fields of fixed length have it.
    pub open spec fn sized(self) -> bool {
        self.grant_id.len() == 16 && self.door_fpr.len() == 32 && self.nonce.len() == 16
            && self.args.sized()
    }

    /// The first objection to the document.
    pub open spec fn fault(self) -> Option<FormatError> {
        if self.kind != self.args.kind() {
            Some(FormatError::BadFieldLength { tag: request_tag::KIND, len: 2 })
        } else {
            tlv::or_else(text::note_fault(request_tag::NOTE, self.note), args_fault(self.args))
        }
    }

    /// The records of the body, where the arguments have the given bytes.
    pub open spec fn recs(self, args: Seq<u8>) -> Seq<Rec> {
        let rs = Seq::<Rec>::empty();
        let rs = rs.push((request_tag::GRANT_ID, self.grant_id));
        let rs = rs.push((request_tag::DOOR_FPR, self.door_fpr));
        let rs = rs.push((request_tag::KIND, bytes::le16(self.kind.number())));
        let rs = rs.push((request_tag::ARGS, args));
        let rs = rs.push((request_tag::NONCE, self.nonce));
        let rs = rs.push((request_tag::NOTE, encode_utf8(self.note)));
        rs
    }
}

/// The bytes of a request for an action.
pub open spec fn action_request_body_bytes(v: ActionRequestView) -> Result<Seq<u8>, FormatError> {
    match v.fault() {
        Some(e) => Err(e),
        None => match args_bytes(v.args) {
            Err(e) => Err(e),
            Ok(args) => tlv::sealed(v.recs(args)),
        },
    }
}

/// The rule for the fields of a request for an action, each by itself.
pub struct ActionRequestSchema;

impl Schema for ActionRequestSchema {
    open spec fn fault(&self, tag: u16, value: Seq<u8>) -> Option<FormatError> {
        if tag == request_tag::KIND {
            kind_fault(tag, value)
        } else if tag == request_tag::ARGS {
            None
        } else if tag == request_tag::NOTE {
            text::note_bytes_fault(tag, value)
        } else if tag == request_tag::GRANT_ID || tag == request_tag::NONCE {
            tlv::length_fault(tag, value, 16)
        } else if tag == request_tag::DOOR_FPR {
            tlv::length_fault(tag, value, 32)
        } else {
            unknown::unknown_fault(tag)
        }
    }

    fn check(&self, tag: u16, value: &[u8]) -> (r: Option<FormatError>) {
        if tag == request_tag::KIND {
            check_kind(tag, value)
        } else if tag == request_tag::ARGS {
            None
        } else if tag == request_tag::NOTE {
            note_bytes_verdict(tag, value)
        } else if tag == request_tag::GRANT_ID || tag == request_tag::NONCE {
            check_length(tag, value, 16)
        } else if tag == request_tag::DOOR_FPR {
            check_length(tag, value, 32)
        } else {
            unknown_verdict(tag)
        }
    }
}

/// What the records hold, or what is wrong with them.
pub open spec fn action_request_in(rs: Seq<Rec>) -> Result<ActionRequestView, FormatError> {
    if tlv::lookup(rs, request_tag::KIND) is None {
        Err(FormatError::MissingField { tag: request_tag::KIND })
    } else if tlv::lookup(rs, request_tag::ARGS) is None {
        Err(FormatError::MissingField { tag: request_tag::ARGS })
    } else if tlv::lookup(rs, request_tag::GRANT_ID) is None {
        Err(FormatError::MissingField { tag: request_tag::GRANT_ID })
    } else if tlv::lookup(rs, request_tag::DOOR_FPR) is None {
        Err(FormatError::MissingField { tag: request_tag::DOOR_FPR })
    } else if args_of(
        tlv::lookup(rs, request_tag::ARGS)->0,
        ActionKind::numbered(bytes::num16(tlv::lookup(rs, request_tag::KIND)->0))->0,
    ) is Err {
        Err(
            args_of(
                tlv::lookup(rs, request_tag::ARGS)->0,
                ActionKind::numbered(bytes::num16(tlv::lookup(rs, request_tag::KIND)->0))->0,
            )->Err_0,
        )
    } else if tlv::lookup(rs, request_tag::NONCE) is None {
        Err(FormatError::MissingField { tag: request_tag::NONCE })
    } else if tlv::lookup(rs, request_tag::NOTE) is None {
        Err(FormatError::MissingField { tag: request_tag::NOTE })
    } else {
        Ok(
            ActionRequestView {
                grant_id: tlv::lookup(rs, request_tag::GRANT_ID)->0,
                door_fpr: tlv::lookup(rs, request_tag::DOOR_FPR)->0,
                kind: ActionKind::numbered(bytes::num16(tlv::lookup(rs, request_tag::KIND)->0))->0,
                args: args_of(
                    tlv::lookup(rs, request_tag::ARGS)->0,
                    ActionKind::numbered(bytes::num16(tlv::lookup(rs, request_tag::KIND)->0))->0,
                )->Ok_0,
                nonce: tlv::lookup(rs, request_tag::NONCE)->0,
                note: decode_utf8(tlv::lookup(rs, request_tag::NOTE)->0),
            },
        )
    }
}

/// What the bytes of a request for an action hold.
pub open spec fn action_request_of(b: Seq<u8>) -> Result<ActionRequestView, FormatError> {
    match tlv::read(ActionRequestSchema, b) {
        Err(e) => Err(e),
        Ok(rs) => match action_request_in(rs) {
            Err(e) => Err(e),
            Ok(v) => match v.fault() {
                Some(e) => Err(e),
                None => Ok(v),
            },
        },
    }
}

/// An optional field that is not known changes nothing in the request that is read.
pub proof fn action_request_reads_past_optional_fields(b: Seq<u8>)
    requires
        action_request_of(b) is Ok,
    ensures
        action_request_of(unknown::without_optional(b)) == action_request_of(b),
{
    unknown::optional_records_are_skipped(ActionRequestSchema, b);
}

/// A request for an action survives being written and read back.
pub proof fn action_request_round_trip(v: ActionRequestView)
    requires
        v.sized(),
        action_request_body_bytes(v) is Ok,
    ensures
        action_request_of(action_request_body_bytes(v)->Ok_0)
            == Ok::<ActionRequestView, FormatError>(v),
{
    broadcast use {
        tlv::group_records,
        bytes::group_numbers,
        encode_utf8_decode_utf8,
        encode_utf8_valid_utf8,
    };

    let args = args_bytes(v.args)->Ok_0;
    args_round_trip(v.args);
    assert(ActionKind::numbered(v.kind.number()) == Some(v.kind));
    tlv::read_wire(ActionRequestSchema, v.recs(args));
}

/// The first objection to a request for an action.
fn check_action_request(v: &ActionRequest) -> (r: Option<FormatError>)
    ensures
        r == v@.fault(),
{
    if v.kind != v.args.kind() {
        return Some(bad(request_tag::KIND, 2));
    }
    if let Some(e) = note_verdict(request_tag::NOTE, v.note.as_str()) {
        return Some(e);
    }
    check_args(&v.args)
}

/// Write a request for an action.
pub fn encode_request(v: &ActionRequest) -> (r: Result<Vec<u8>, FormatError>)
    ensures
        tlv::agrees(r, action_request_body_bytes(v@)),
{
    broadcast use {tlv::group_records, bytes::group_numbers};

    refuse(check_action_request(v))?;
    let args = encode_args(&v.args)?;
    let mut w = TlvWriter::new();
    w.put(request_tag::GRANT_ID, v.grant_id.as_slice())?;
    w.put(request_tag::DOOR_FPR, v.door_fpr.as_slice())?;
    w.put(request_tag::KIND, write16(v.kind.as_u16()).as_slice())?;
    w.put(request_tag::ARGS, args.as_slice())?;
    w.put(request_tag::NONCE, v.nonce.as_slice())?;
    w.put(request_tag::NOTE, v.note.as_str().as_bytes())?;
    Ok(w.finish())
}

/// Read a request for an action.
pub fn decode_request(bytes: &[u8]) -> (r: Result<ActionRequest, FormatError>)
    ensures
        tlv::agrees(r, action_request_of(bytes@)),
{
    let fs = read_fields(&ActionRequestSchema, bytes)?;
    let kind = need(&fs, request_tag::KIND)?;
    let raw = need(&fs, request_tag::ARGS)?;
    let kind = ActionKind::from_u16(read16(kind), request_tag::KIND)?;
    let grant_id = need(&fs, request_tag::GRANT_ID)?;
    let door_fpr = need(&fs, request_tag::DOOR_FPR)?;
    let args = decode_args(raw, kind)?;
    let nonce = need(&fs, request_tag::NONCE)?;
    let note = need(&fs, request_tag::NOTE)?;
    let v = ActionRequest {
        grant_id: array(grant_id),
        door_fpr: array(door_fpr),
        kind,
        args,
        nonce: array(nonce),
        note: utf8_text(note),
    };
    refuse(check_action_request(&v))?;
    Ok(v)
}

/// The lease for one execution.
#[derive(Debug, Clone, PartialEq, Eq)]
pub struct ActionLease {
    pub grant_id: [u8; 16],
    pub door_fpr: [u8; 32],
    pub kind: ActionKind,
    pub args: Args,
    pub nonce: [u8; 16],
    pub issued_at: i64,
    pub expires_at: i64,
    pub seq: u64,
    pub signature: [u8; SIGNATURE_LEN],
}

/// What a lease for an action says.
pub struct ActionLeaseView {
    pub grant_id: Seq<u8>,
    pub door_fpr: Seq<u8>,
    pub kind: ActionKind,
    pub args: ArgsView,
    pub nonce: Seq<u8>,
    pub issued_at: i64,
    pub expires_at: i64,
    pub seq: u64,
    pub signature: Seq<u8>,
}

impl View for ActionLease {
    type V = ActionLeaseView;

    open spec fn view(&self) -> ActionLeaseView {
        ActionLeaseView {
            grant_id: self.grant_id@,
            door_fpr: self.door_fpr@,
            kind: self.kind,
            args: self.args@,
            nonce: self.nonce@,
            issued_at: self.issued_at,
            expires_at: self.expires_at,
            seq: self.seq,
            signature: self.signature@,
        }
    }
}

impl ActionLeaseView {
    /// The fields of fixed length have it.
    pub open spec fn sized(self) -> bool {
        self.grant_id.len() == 16 && self.door_fpr.len() == 32 && self.nonce.len() == 16
            && self.signature.len() == SIGNATURE_LEN && self.args.sized()
    }

    /// The first objection to the document.
    pub open spec fn fault(self) -> Option<FormatError> {
        if self.kind != self.args.kind() {
            Some(FormatError::BadFieldLength { tag: lease_tag::KIND, len: 2 })
        } else {
            if self.expires_at < self.issued_at || self.expires_at > self.issued_at
                + ACTION_LEASE_SECONDS {
                Some(FormatError::BadFieldLength { tag: lease_tag::EXPIRES_AT, len: 8 })
            } else {
                args_fault(self.args)
            }
        }
    }

    /// The records of the body, where the arguments have the given bytes.
    pub open spec fn recs(self, args: Seq<u8>) -> Seq<Rec> {
        let rs = Seq::<Rec>::empty();
        let rs = rs.push((lease_tag::GRANT_ID, self.grant_id));
        let rs = rs.push((lease_tag::DOOR_FPR, self.door_fpr));
        let rs = rs.push((lease_tag::KIND, bytes::le16(self.kind.number())));
        let rs = rs.push((lease_tag::ARGS, args));
        let rs = rs.push((lease_tag::NONCE, self.nonce));
        let rs = rs.push((lease_tag::ISSUED_AT, bytes::le64s(self.issued_at)));
        let rs = rs.push((lease_tag::EXPIRES_AT, bytes::le64s(self.expires_at)));
        let rs = rs.push((lease_tag::SEQ, bytes::le64(self.seq)));
        rs
    }
}

/// The bytes of a lease for an action.
pub open spec fn action_lease_body_bytes(v: ActionLeaseView) -> Result<Seq<u8>, FormatError> {
    match v.fault() {
        Some(e) => Err(e),
        None => match args_bytes(v.args) {
            Err(e) => Err(e),
            Ok(args) => tlv::sealed(v.recs(args)),
        },
    }
}

/// The rule for the fields of a lease for an action, each by itself.
pub struct ActionLeaseSchema;

impl Schema for ActionLeaseSchema {
    open spec fn fault(&self, tag: u16, value: Seq<u8>) -> Option<FormatError> {
        if tag == lease_tag::KIND {
            kind_fault(tag, value)
        } else if tag == lease_tag::ARGS {
            None
        } else if tag == lease_tag::GRANT_ID || tag == lease_tag::NONCE {
            tlv::length_fault(tag, value, 16)
        } else if tag == lease_tag::DOOR_FPR {
            tlv::length_fault(tag, value, 32)
        } else if tag == lease_tag::ISSUED_AT || tag == lease_tag::EXPIRES_AT
            || tag == lease_tag::SEQ {
            tlv::length_fault(tag, value, 8)
        } else {
            unknown::unknown_fault(tag)
        }
    }

    fn check(&self, tag: u16, value: &[u8]) -> (r: Option<FormatError>) {
        if tag == lease_tag::KIND {
            check_kind(tag, value)
        } else if tag == lease_tag::ARGS {
            None
        } else if tag == lease_tag::GRANT_ID || tag == lease_tag::NONCE {
            check_length(tag, value, 16)
        } else if tag == lease_tag::DOOR_FPR {
            check_length(tag, value, 32)
        } else if tag == lease_tag::ISSUED_AT || tag == lease_tag::EXPIRES_AT
            || tag == lease_tag::SEQ {
            check_length(tag, value, 8)
        } else {
            unknown_verdict(tag)
        }
    }
}

/// What the records hold, or what is wrong with them.
pub open spec fn action_lease_in(
    rs: Seq<Rec>,
    signature: Seq<u8>,
) -> Result<ActionLeaseView, FormatError> {
    if tlv::lookup(rs, lease_tag::KIND) is None {
        Err(FormatError::MissingField { tag: lease_tag::KIND })
    } else if tlv::lookup(rs, lease_tag::ARGS) is None {
        Err(FormatError::MissingField { tag: lease_tag::ARGS })
    } else if tlv::lookup(rs, lease_tag::GRANT_ID) is None {
        Err(FormatError::MissingField { tag: lease_tag::GRANT_ID })
    } else if tlv::lookup(rs, lease_tag::DOOR_FPR) is None {
        Err(FormatError::MissingField { tag: lease_tag::DOOR_FPR })
    } else if args_of(
        tlv::lookup(rs, lease_tag::ARGS)->0,
        ActionKind::numbered(bytes::num16(tlv::lookup(rs, lease_tag::KIND)->0))->0,
    ) is Err {
        Err(
            args_of(
                tlv::lookup(rs, lease_tag::ARGS)->0,
                ActionKind::numbered(bytes::num16(tlv::lookup(rs, lease_tag::KIND)->0))->0,
            )->Err_0,
        )
    } else if tlv::lookup(rs, lease_tag::NONCE) is None {
        Err(FormatError::MissingField { tag: lease_tag::NONCE })
    } else if tlv::lookup(rs, lease_tag::ISSUED_AT) is None {
        Err(FormatError::MissingField { tag: lease_tag::ISSUED_AT })
    } else if tlv::lookup(rs, lease_tag::EXPIRES_AT) is None {
        Err(FormatError::MissingField { tag: lease_tag::EXPIRES_AT })
    } else if tlv::lookup(rs, lease_tag::SEQ) is None {
        Err(FormatError::MissingField { tag: lease_tag::SEQ })
    } else {
        Ok(
            ActionLeaseView {
                grant_id: tlv::lookup(rs, lease_tag::GRANT_ID)->0,
                door_fpr: tlv::lookup(rs, lease_tag::DOOR_FPR)->0,
                kind: ActionKind::numbered(bytes::num16(tlv::lookup(rs, lease_tag::KIND)->0))->0,
                args: args_of(
                    tlv::lookup(rs, lease_tag::ARGS)->0,
                    ActionKind::numbered(bytes::num16(tlv::lookup(rs, lease_tag::KIND)->0))->0,
                )->Ok_0,
                nonce: tlv::lookup(rs, lease_tag::NONCE)->0,
                issued_at: bytes::num64s(tlv::lookup(rs, lease_tag::ISSUED_AT)->0),
                expires_at: bytes::num64s(tlv::lookup(rs, lease_tag::EXPIRES_AT)->0),
                seq: bytes::num64(tlv::lookup(rs, lease_tag::SEQ)->0),
                signature: signature,
            },
        )
    }
}

/// What the bytes of a lease for an action hold.
pub open spec fn action_lease_of(
    b: Seq<u8>,
    signature: Seq<u8>,
) -> Result<ActionLeaseView, FormatError> {
    match tlv::read(ActionLeaseSchema, b) {
        Err(e) => Err(e),
        Ok(rs) => match action_lease_in(rs, signature) {
            Err(e) => Err(e),
            Ok(v) => match v.fault() {
                Some(e) => Err(e),
                None => Ok(v),
            },
        },
    }
}

/// An optional field that is not known changes nothing in the lease that is read.
pub proof fn action_lease_reads_past_optional_fields(b: Seq<u8>, signature: Seq<u8>)
    requires
        action_lease_of(b, signature) is Ok,
    ensures
        action_lease_of(unknown::without_optional(b), signature) == action_lease_of(b, signature),
{
    unknown::optional_records_are_skipped(ActionLeaseSchema, b);
}

/// A lease for an action survives being written and read back.
pub proof fn action_lease_round_trip(v: ActionLeaseView)
    requires
        v.sized(),
        action_lease_body_bytes(v) is Ok,
    ensures
        action_lease_of(action_lease_body_bytes(v)->Ok_0, v.signature)
            == Ok::<ActionLeaseView, FormatError>(v),
{
    broadcast use {
        tlv::group_records,
        bytes::group_numbers,
        encode_utf8_decode_utf8,
        encode_utf8_valid_utf8,
    };

    let args = args_bytes(v.args)->Ok_0;
    args_round_trip(v.args);
    assert(ActionKind::numbered(v.kind.number()) == Some(v.kind));
    tlv::read_wire(ActionLeaseSchema, v.recs(args));
}

/// The first objection to a lease for an action.
fn check_action_lease(v: &ActionLease) -> (r: Option<FormatError>)
    ensures
        r == v@.fault(),
{
    if v.kind != v.args.kind() {
        return Some(bad(lease_tag::KIND, 2));
    }
    if v.expires_at < v.issued_at {
        return Some(bad(lease_tag::EXPIRES_AT, 8));
    }
    if v.issued_at <= i64::MAX - ACTION_LEASE_SECONDS && v.expires_at > v.issued_at
        + ACTION_LEASE_SECONDS {
        return Some(bad(lease_tag::EXPIRES_AT, 8));
    }
    check_args(&v.args)
}

/// The bytes of a lease that are signed.
pub fn lease_body(v: &ActionLease) -> (r: Result<Vec<u8>, FormatError>)
    ensures
        tlv::agrees(r, action_lease_body_bytes(v@)),
{
    broadcast use {tlv::group_records, bytes::group_numbers};

    refuse(check_action_lease(v))?;
    let args = encode_args(&v.args)?;
    let mut w = TlvWriter::new();
    w.put(lease_tag::GRANT_ID, v.grant_id.as_slice())?;
    w.put(lease_tag::DOOR_FPR, v.door_fpr.as_slice())?;
    w.put(lease_tag::KIND, write16(v.kind.as_u16()).as_slice())?;
    w.put(lease_tag::ARGS, args.as_slice())?;
    w.put(lease_tag::NONCE, v.nonce.as_slice())?;
    w.put(lease_tag::ISSUED_AT, write64s(v.issued_at).as_slice())?;
    w.put(lease_tag::EXPIRES_AT, write64s(v.expires_at).as_slice())?;
    w.put(lease_tag::SEQ, write64(v.seq).as_slice())?;
    Ok(w.finish())
}

/// Read the body of a lease under a signature.
fn decode_lease_body(
    bytes: &[u8],
    signature: [u8; SIGNATURE_LEN],
) -> (r: Result<ActionLease, FormatError>)
    ensures
        tlv::agrees(r, action_lease_of(bytes@, signature@)),
{
    let fs = read_fields(&ActionLeaseSchema, bytes)?;
    let kind = need(&fs, lease_tag::KIND)?;
    let raw = need(&fs, lease_tag::ARGS)?;
    let kind = ActionKind::from_u16(read16(kind), lease_tag::KIND)?;
    let grant_id = need(&fs, lease_tag::GRANT_ID)?;
    let door_fpr = need(&fs, lease_tag::DOOR_FPR)?;
    let args = decode_args(raw, kind)?;
    let nonce = need(&fs, lease_tag::NONCE)?;
    let issued_at = need(&fs, lease_tag::ISSUED_AT)?;
    let expires_at = need(&fs, lease_tag::EXPIRES_AT)?;
    let seq = need(&fs, lease_tag::SEQ)?;
    let v = ActionLease {
        grant_id: array(grant_id),
        door_fpr: array(door_fpr),
        kind,
        args,
        nonce: array(nonce),
        issued_at: read64s(issued_at),
        expires_at: read64s(expires_at),
        seq: read64(seq),
        signature,
    };
    refuse(check_action_lease(&v))?;
    Ok(v)
}

/// The lease that the bytes hold, where `signed` says whether the signature holds
/// under the server's key. Nothing is read of a body that is not signed.
pub open spec fn opened_lease(b: Seq<u8>, signed: bool) -> Result<ActionLeaseView, FormatError> {
    if b.len() < SIGNATURE_LEN || !signed {
        Err(FormatError::BadHeaderSignature)
    } else {
        action_lease_of(b.skip(SIGNATURE_LEN as int), b.take(SIGNATURE_LEN as int))
    }
}

/// Under a signature that does not hold, no body is told from another: each is refused alike.
pub proof fn unsigned_lease_is_refused(b: Seq<u8>)
    ensures
        opened_lease(b, false)
            == Err::<ActionLeaseView, FormatError>(FormatError::BadHeaderSignature),
{
}

/// A signed lease survives being written and read back.
pub proof fn signed_lease_round_trip(v: ActionLeaseView)
    requires
        v.sized(),
        action_lease_body_bytes(v) is Ok,
    ensures
        opened_lease(signed_bytes(v.signature, action_lease_body_bytes(v))->Ok_0, true) == Ok::<
            ActionLeaseView,
            FormatError,
        >(v),
{
    action_lease_round_trip(v);
    signature_parts(v.signature, action_lease_body_bytes(v)->Ok_0);
}

/// A lease of an action that was opened was read from the very body that its signature was
/// checked over.
pub proof fn lease_is_read_from_what_was_signed(b: Seq<u8>, lease_verify_key: Seq<u8>)
    requires
        opened_lease(b, true) is Ok,
    ensures
        transcript::claimed(Label::ActionLease, b, lease_verify_key) is Ok,
        ({
            let claim = transcript::claimed(Label::ActionLease, b, lease_verify_key)->Ok_0;
            opened_lease(b, true) == action_lease_of(claim.transcript.body, claim.signature)
        }),
{
}

/// A lease that was opened lasts no longer than a lease may.
pub proof fn opened_lease_is_short(b: Seq<u8>, signed: bool)
    requires
        opened_lease(b, signed) is Ok,
    ensures
        signed,
        0 <= opened_lease(b, signed)->Ok_0.expires_at - opened_lease(b, signed)->Ok_0.issued_at
            <= ACTION_LEASE_SECONDS,
{
}

/// What the server signs of a lease of an action. The label is another than that of a lease
/// of a file, which the same key signs.
pub fn lease_transcript(body: &[u8]) -> (r: Transcript)
    ensures
        r@ == (TranscriptView { label: Label::ActionLease, body: body@ }),
{
    Transcript::new(Label::ActionLease, body)
}

/// Write a signed lease.
pub fn encode_lease(lease: &ActionLease) -> (r: Result<Vec<u8>, FormatError>)
    ensures
        tlv::agrees(r, signed_bytes(lease@.signature, action_lease_body_bytes(lease@))),
{
    let body = lease_body(lease)?;
    Ok(with_signature(&lease.signature, body.as_slice()))
}

/// The signature that is to be checked before a lease of an action is read.
pub fn lease_claim(bytes: &[u8], lease_verify_key: &[u8; 32]) -> (r: Result<Claim, FormatError>)
    ensures
        tlv::agrees(r, transcript::claimed(Label::ActionLease, bytes@, lease_verify_key@)),
{
    transcript::claim(Label::ActionLease, bytes, lease_verify_key)
}

/// Read a signed lease. `signed` says whether the signature over the body (see
/// [`lease_claim`]) holds under the key by which the server's leases are checked.
pub fn decode_lease(bytes: &[u8], signed: bool) -> (r: Result<ActionLease, FormatError>)
    ensures
        tlv::agrees(r, opened_lease(bytes@, signed)),
{
    let (signature, body) = split_signature(bytes)?;
    if !signed {
        return Err(FormatError::BadHeaderSignature);
    }
    decode_lease_body(body, signature)
}

/// An action that waits for the owner.
#[derive(Debug, Clone, PartialEq, Eq)]
pub struct PendingAction {
    pub seq: u64,
    pub grant_id: [u8; 16],
    pub door_fpr: [u8; 32],
    pub kind: ActionKind,
    pub args: Args,
    pub nonce: [u8; 16],
    pub note: String,
    pub at: i64,
}

/// What a waiting action says.
pub struct PendingActionView {
    pub seq: u64,
    pub grant_id: Seq<u8>,
    pub door_fpr: Seq<u8>,
    pub kind: ActionKind,
    pub args: ArgsView,
    pub nonce: Seq<u8>,
    pub note: Seq<char>,
    pub at: i64,
}

impl View for PendingAction {
    type V = PendingActionView;

    open spec fn view(&self) -> PendingActionView {
        PendingActionView {
            seq: self.seq,
            grant_id: self.grant_id@,
            door_fpr: self.door_fpr@,
            kind: self.kind,
            args: self.args@,
            nonce: self.nonce@,
            note: self.note@,
            at: self.at,
        }
    }
}

impl PendingActionView {
    /// The fields of fixed length have it.
    pub open spec fn sized(self) -> bool {
        self.grant_id.len() == 16 && self.door_fpr.len() == 32 && self.nonce.len() == 16
            && self.args.sized()
    }

    /// The first objection to the document.
    pub open spec fn fault(self) -> Option<FormatError> {
        if self.kind != self.args.kind() {
            Some(FormatError::BadFieldLength { tag: pending_tag::KIND, len: 2 })
        } else {
            tlv::or_else(text::note_fault(pending_tag::NOTE, self.note), args_fault(self.args))
        }
    }

    /// The records of the body, where the arguments have the given bytes.
    pub open spec fn recs(self, args: Seq<u8>) -> Seq<Rec> {
        let rs = Seq::<Rec>::empty();
        let rs = rs.push((pending_tag::SEQ, bytes::le64(self.seq)));
        let rs = rs.push((pending_tag::GRANT_ID, self.grant_id));
        let rs = rs.push((pending_tag::DOOR_FPR, self.door_fpr));
        let rs = rs.push((pending_tag::KIND, bytes::le16(self.kind.number())));
        let rs = rs.push((pending_tag::ARGS, args));
        let rs = rs.push((pending_tag::NONCE, self.nonce));
        let rs = rs.push((pending_tag::NOTE, encode_utf8(self.note)));
        let rs = rs.push((pending_tag::AT, bytes::le64s(self.at)));
        rs
    }
}

/// The bytes of a waiting action.
pub open spec fn pending_action_body_bytes(v: PendingActionView) -> Result<Seq<u8>, FormatError> {
    match v.fault() {
        Some(e) => Err(e),
        None => match args_bytes(v.args) {
            Err(e) => Err(e),
            Ok(args) => tlv::sealed(v.recs(args)),
        },
    }
}

/// The rule for the fields of a waiting action, each by itself.
pub struct PendingActionSchema;

impl Schema for PendingActionSchema {
    open spec fn fault(&self, tag: u16, value: Seq<u8>) -> Option<FormatError> {
        if tag == pending_tag::KIND {
            kind_fault(tag, value)
        } else if tag == pending_tag::ARGS {
            None
        } else if tag == pending_tag::NOTE {
            text::note_bytes_fault(tag, value)
        } else if tag == pending_tag::SEQ || tag == pending_tag::AT {
            tlv::length_fault(tag, value, 8)
        } else if tag == pending_tag::GRANT_ID || tag == pending_tag::NONCE {
            tlv::length_fault(tag, value, 16)
        } else if tag == pending_tag::DOOR_FPR {
            tlv::length_fault(tag, value, 32)
        } else {
            unknown::unknown_fault(tag)
        }
    }

    fn check(&self, tag: u16, value: &[u8]) -> (r: Option<FormatError>) {
        if tag == pending_tag::KIND {
            check_kind(tag, value)
        } else if tag == pending_tag::ARGS {
            None
        } else if tag == pending_tag::NOTE {
            note_bytes_verdict(tag, value)
        } else if tag == pending_tag::SEQ || tag == pending_tag::AT {
            check_length(tag, value, 8)
        } else if tag == pending_tag::GRANT_ID || tag == pending_tag::NONCE {
            check_length(tag, value, 16)
        } else if tag == pending_tag::DOOR_FPR {
            check_length(tag, value, 32)
        } else {
            unknown_verdict(tag)
        }
    }
}

/// What the records hold, or what is wrong with them.
pub open spec fn pending_action_in(rs: Seq<Rec>) -> Result<PendingActionView, FormatError> {
    if tlv::lookup(rs, pending_tag::KIND) is None {
        Err(FormatError::MissingField { tag: pending_tag::KIND })
    } else if tlv::lookup(rs, pending_tag::ARGS) is None {
        Err(FormatError::MissingField { tag: pending_tag::ARGS })
    } else if tlv::lookup(rs, pending_tag::SEQ) is None {
        Err(FormatError::MissingField { tag: pending_tag::SEQ })
    } else if tlv::lookup(rs, pending_tag::GRANT_ID) is None {
        Err(FormatError::MissingField { tag: pending_tag::GRANT_ID })
    } else if tlv::lookup(rs, pending_tag::DOOR_FPR) is None {
        Err(FormatError::MissingField { tag: pending_tag::DOOR_FPR })
    } else if args_of(
        tlv::lookup(rs, pending_tag::ARGS)->0,
        ActionKind::numbered(bytes::num16(tlv::lookup(rs, pending_tag::KIND)->0))->0,
    ) is Err {
        Err(
            args_of(
                tlv::lookup(rs, pending_tag::ARGS)->0,
                ActionKind::numbered(bytes::num16(tlv::lookup(rs, pending_tag::KIND)->0))->0,
            )->Err_0,
        )
    } else if tlv::lookup(rs, pending_tag::NONCE) is None {
        Err(FormatError::MissingField { tag: pending_tag::NONCE })
    } else if tlv::lookup(rs, pending_tag::NOTE) is None {
        Err(FormatError::MissingField { tag: pending_tag::NOTE })
    } else if tlv::lookup(rs, pending_tag::AT) is None {
        Err(FormatError::MissingField { tag: pending_tag::AT })
    } else {
        Ok(
            PendingActionView {
                seq: bytes::num64(tlv::lookup(rs, pending_tag::SEQ)->0),
                grant_id: tlv::lookup(rs, pending_tag::GRANT_ID)->0,
                door_fpr: tlv::lookup(rs, pending_tag::DOOR_FPR)->0,
                kind: ActionKind::numbered(bytes::num16(tlv::lookup(rs, pending_tag::KIND)->0))->0,
                args: args_of(
                    tlv::lookup(rs, pending_tag::ARGS)->0,
                    ActionKind::numbered(bytes::num16(tlv::lookup(rs, pending_tag::KIND)->0))->0,
                )->Ok_0,
                nonce: tlv::lookup(rs, pending_tag::NONCE)->0,
                note: decode_utf8(tlv::lookup(rs, pending_tag::NOTE)->0),
                at: bytes::num64s(tlv::lookup(rs, pending_tag::AT)->0),
            },
        )
    }
}

/// What the bytes of a waiting action hold.
#[verifier::opaque]
pub open spec fn pending_action_of(b: Seq<u8>) -> Result<PendingActionView, FormatError> {
    match tlv::read(PendingActionSchema, b) {
        Err(e) => Err(e),
        Ok(rs) => match pending_action_in(rs) {
            Err(e) => Err(e),
            Ok(v) => match v.fault() {
                Some(e) => Err(e),
                None => Ok(v),
            },
        },
    }
}

/// An optional field that is not known changes nothing in the waiting action that is read.
pub proof fn pending_action_reads_past_optional_fields(b: Seq<u8>)
    requires
        pending_action_of(b) is Ok,
    ensures
        pending_action_of(unknown::without_optional(b)) == pending_action_of(b),
{
    reveal(pending_action_of);

    unknown::optional_records_are_skipped(PendingActionSchema, b);
}

/// A waiting action survives being written and read back.
pub proof fn pending_action_round_trip(v: PendingActionView)
    requires
        v.sized(),
        pending_action_body_bytes(v) is Ok,
    ensures
        pending_action_of(pending_action_body_bytes(v)->Ok_0)
            == Ok::<PendingActionView, FormatError>(v),
{
    reveal(pending_action_of);

    broadcast use {
        tlv::group_records,
        bytes::group_numbers,
        encode_utf8_decode_utf8,
        encode_utf8_valid_utf8,
    };

    let args = args_bytes(v.args)->Ok_0;
    args_round_trip(v.args);
    assert(ActionKind::numbered(v.kind.number()) == Some(v.kind));
    tlv::read_wire(PendingActionSchema, v.recs(args));
}

/// The first objection to a waiting action.
fn check_pending_action(v: &PendingAction) -> (r: Option<FormatError>)
    ensures
        r == v@.fault(),
{
    if v.kind != v.args.kind() {
        return Some(bad(pending_tag::KIND, 2));
    }
    if let Some(e) = note_verdict(pending_tag::NOTE, v.note.as_str()) {
        return Some(e);
    }
    check_args(&v.args)
}

/// Write a waiting action.
pub fn encode_pending(v: &PendingAction) -> (r: Result<Vec<u8>, FormatError>)
    ensures
        tlv::agrees(r, pending_action_body_bytes(v@)),
{
    broadcast use {tlv::group_records, bytes::group_numbers};

    refuse(check_pending_action(v))?;
    let args = encode_args(&v.args)?;
    let mut w = TlvWriter::new();
    w.put(pending_tag::SEQ, write64(v.seq).as_slice())?;
    w.put(pending_tag::GRANT_ID, v.grant_id.as_slice())?;
    w.put(pending_tag::DOOR_FPR, v.door_fpr.as_slice())?;
    w.put(pending_tag::KIND, write16(v.kind.as_u16()).as_slice())?;
    w.put(pending_tag::ARGS, args.as_slice())?;
    w.put(pending_tag::NONCE, v.nonce.as_slice())?;
    w.put(pending_tag::NOTE, v.note.as_str().as_bytes())?;
    w.put(pending_tag::AT, write64s(v.at).as_slice())?;
    Ok(w.finish())
}

/// Read a waiting action.
pub fn decode_pending(bytes: &[u8]) -> (r: Result<PendingAction, FormatError>)
    ensures
        tlv::agrees(r, pending_action_of(bytes@)),
{
    proof {
        reveal(pending_action_of);
    }
    let fs = read_fields(&PendingActionSchema, bytes)?;
    let kind = need(&fs, pending_tag::KIND)?;
    let raw = need(&fs, pending_tag::ARGS)?;
    let kind = ActionKind::from_u16(read16(kind), pending_tag::KIND)?;
    let seq = need(&fs, pending_tag::SEQ)?;
    let grant_id = need(&fs, pending_tag::GRANT_ID)?;
    let door_fpr = need(&fs, pending_tag::DOOR_FPR)?;
    let args = decode_args(raw, kind)?;
    let nonce = need(&fs, pending_tag::NONCE)?;
    let note = need(&fs, pending_tag::NOTE)?;
    let at = need(&fs, pending_tag::AT)?;
    let v = PendingAction {
        seq: read64(seq),
        grant_id: array(grant_id),
        door_fpr: array(door_fpr),
        kind,
        args,
        nonce: array(nonce),
        note: utf8_text(note),
        at: read64s(at),
    };
    refuse(check_pending_action(&v))?;
    Ok(v)
}

/// The waiting actions in the bytes behind `taken` others: each is preceded by its
/// length, and there are no more of them than the window holds.
pub open spec fn action_queue_behind(bytes: Seq<u8>, taken: nat) -> Result<
    Seq<PendingActionView>,
    QueueError,
>
    decreases bytes.len(),
{
    if bytes.len() == 0 {
        Ok(Seq::empty())
    } else if bytes.len() < 4 {
        Err(QueueError::Torn("очередь действий оборвана на длине записи"))
    } else {
        let len = bytes::num32(bytes.subrange(0, 4));
        if bytes.len() - 4 < len {
            Err(
                QueueError::Torn(
                    "запись очереди действий короче объявленной длины",
                ),
            )
        } else {
            match pending_action_of(bytes.subrange(4, 4 + len)) {
                Err(e) => Err(QueueError::Record(e)),
                Ok(p) => if taken + 1 > MAX_PENDING_ACTION_WINDOW {
                    Err(QueueError::TooMany)
                } else {
                    match action_queue_behind(bytes.skip(4 + len), taken + 1) {
                        Err(e) => Err(e),
                        Ok(rest) => Ok(seq![p] + rest),
                    }
                },
            }
        }
    }
}

/// What waiting actions say.
pub open spec fn pending_action_views(ps: Seq<PendingAction>) -> Seq<PendingActionView> {
    ps.map_values(|p: PendingAction| p@)
}

proof fn action_queue_behind_round_trip(ds: Seq<Seq<u8>>, ps: Seq<PendingActionView>, taken: nat)
    requires
        ds.len() == ps.len(),
        taken + ds.len() <= MAX_PENDING_ACTION_WINDOW,
        forall|i: int|
            0 <= i < ds.len()
                ==> (#[trigger] ds[i]).len() <= u32::MAX && pending_action_of(ds[i]) == Ok::<
                PendingActionView,
                FormatError,
            >(ps[i]),
    ensures
        action_queue_behind(bytes::framed(ds), taken)
            == Ok::<Seq<PendingActionView>, QueueError>(ps),
    decreases ds.len(),
{
    if ds.len() > 0 {
        bytes::framed_first(ds);
        let rest = ds.drop_first();
        let later = ps.drop_first();
        assert forall|i: int| 0 <= i < rest.len() implies (#[trigger] rest[i]).len() <= u32::MAX
            && pending_action_of(rest[i]) == Ok::<PendingActionView, FormatError>(later[i]) by {
            assert(rest[i] == ds[i + 1]);
        }
        action_queue_behind_round_trip(rest, later, taken + 1);
        assert(seq![ps[0]] + later =~= ps);
    } else {
        assert(ps =~= Seq::empty());
    }
}

/// A queue of actions, none of them left out or added, is what the server put together: each
/// action behind its length, and no more than the window holds.
pub proof fn action_queue_round_trip(ds: Seq<Seq<u8>>, ps: Seq<PendingActionView>)
    requires
        ds.len() == ps.len(),
        ds.len() <= MAX_PENDING_ACTION_WINDOW,
        forall|i: int|
            0 <= i < ds.len()
                ==> (#[trigger] ds[i]).len() <= u32::MAX && pending_action_of(ds[i]) == Ok::<
                PendingActionView,
                FormatError,
            >(ps[i]),
    ensures
        action_queue_behind(bytes::framed(ds), 0) == Ok::<Seq<PendingActionView>, QueueError>(ps),
{
    action_queue_behind_round_trip(ds, ps, 0);
}

proof fn action_queue_behind_overflows(ds: Seq<Seq<u8>>, taken: nat)
    requires
        taken <= MAX_PENDING_ACTION_WINDOW,
        taken + ds.len() > MAX_PENDING_ACTION_WINDOW,
        forall|i: int|
            0 <= i < ds.len() && taken + i <= MAX_PENDING_ACTION_WINDOW
                ==> (#[trigger] ds[i]).len() <= u32::MAX
                && pending_action_of(ds[i]) is Ok,
    ensures
        action_queue_behind(bytes::framed(ds), taken)
            == Err::<Seq<PendingActionView>, QueueError>(QueueError::TooMany),
    decreases ds.len(),
{
    bytes::framed_first(ds);
    if taken < MAX_PENDING_ACTION_WINDOW {
        let rest = ds.drop_first();
        assert forall|i: int| 0 <= i < rest.len()
            && taken + 1 + i <= MAX_PENDING_ACTION_WINDOW implies (
        #[trigger] rest[i]).len() <= u32::MAX && pending_action_of(rest[i]) is Ok by {
            assert(rest[i] == ds[i + 1]);
        }
        action_queue_behind_overflows(rest, taken + 1);
    }
}

/// More actions than the window holds are refused, whatever stands behind the first one too
/// many.
pub proof fn too_long_an_action_queue_is_refused(ds: Seq<Seq<u8>>)
    requires
        ds.len() > MAX_PENDING_ACTION_WINDOW,
        forall|i: int|
            0 <= i <= MAX_PENDING_ACTION_WINDOW
                ==> (#[trigger] ds[i]).len() <= u32::MAX && pending_action_of(ds[i]) is Ok,
    ensures
        action_queue_behind(bytes::framed(ds), 0)
            == Err::<Seq<PendingActionView>, QueueError>(QueueError::TooMany),
{
    action_queue_behind_overflows(ds, 0);
}

/// Split a queue of waiting actions as the server sends it.
pub fn split_action_queue(queue: &[u8]) -> (r: Result<Vec<PendingAction>, QueueError>)
    ensures
        match r {
            Ok(ps) => action_queue_behind(queue@, 0) == Ok::<Seq<PendingActionView>, QueueError>(
                pending_action_views(ps@),
            ),
            Err(e) => action_queue_behind(queue@, 0) == Err::<Seq<PendingActionView>, QueueError>(
                e,
            ),
        },
{
    let mut out: Vec<PendingAction> = Vec::new();
    let mut rest: &[u8] = queue;
    proof {
        if action_queue_behind(queue@, 0) is Ok {
            let all = action_queue_behind(queue@, 0)->Ok_0;
            assert(pending_action_views(out@) + all =~= all);
        }
    }
    while rest.len() > 0
        invariant
            out@.len() <= MAX_PENDING_ACTION_WINDOW,
            action_queue_behind(queue@, 0) == match action_queue_behind(rest@, out@.len()) {
                Err(e) => Err::<Seq<PendingActionView>, QueueError>(e),
                Ok(tail) => Ok::<Seq<PendingActionView>, QueueError>(
                    pending_action_views(out@) + tail,
                ),
            },
        decreases rest@.len(),
    {
        if rest.len() < 4 {
            return Err(
                QueueError::Torn("очередь действий оборвана на длине записи"),
            );
        }
        let len: u32 = read32(part(rest, 0, 4));
        if ((rest.len() - 4) as u64) < len as u64 {
            return Err(
                QueueError::Torn(
                    "запись очереди действий короче объявленной длины",
                ),
            );
        }
        let end: usize = 4 + len as usize;
        match decode_pending(part(rest, 4, end)) {
            Err(e) => {
                return Err(QueueError::Record(e));
            },
            Ok(p) => {
                if out.len() + 1 > MAX_PENDING_ACTION_WINDOW {
                    return Err(QueueError::TooMany);
                }
                let ghost before = out@;
                let ghost whole = rest@;
                out.push(p);
                rest = part(rest, end, rest.len());
                proof {
                    assert(rest@ =~= whole.skip(4 + len));
                    assert(pending_action_views(out@) =~= pending_action_views(before).push(p@));
                    if action_queue_behind(rest@, out@.len()) is Ok {
                        let tail = action_queue_behind(rest@, out@.len())->Ok_0;
                        assert(pending_action_views(before) + (seq![p@] + tail)
                            =~= pending_action_views(out@) + tail);
                    }
                }
            },
        }
    }
    assert(pending_action_views(out@) + Seq::<PendingActionView>::empty()
        =~= pending_action_views(out@));
    Ok(out)
}

/// The decision of the owner on a waiting action.
#[derive(Debug, Clone, PartialEq, Eq)]
pub struct ActionDecision {
    pub seq: u64,
    pub grant_id: [u8; 16],
    pub door_fpr: [u8; 32],
    pub approve: bool,
    pub note: String,
    pub author_key: [u8; 32],
    pub signature: [u8; SIGNATURE_LEN],
}

/// What a decision on an action says.
pub struct ActionDecisionView {
    pub seq: u64,
    pub grant_id: Seq<u8>,
    pub door_fpr: Seq<u8>,
    pub approve: bool,
    pub note: Seq<char>,
    pub author_key: Seq<u8>,
    pub signature: Seq<u8>,
}

impl View for ActionDecision {
    type V = ActionDecisionView;

    open spec fn view(&self) -> ActionDecisionView {
        ActionDecisionView {
            seq: self.seq,
            grant_id: self.grant_id@,
            door_fpr: self.door_fpr@,
            approve: self.approve,
            note: self.note@,
            author_key: self.author_key@,
            signature: self.signature@,
        }
    }
}

impl ActionDecisionView {
    /// The fields of fixed length have it.
    pub open spec fn sized(self) -> bool {
        self.grant_id.len() == 16 && self.door_fpr.len() == 32 && self.author_key.len() == 32
            && self.signature.len() == SIGNATURE_LEN
    }

    /// The records of the decision that are signed.
    pub open spec fn recs(self) -> Seq<Rec> {
        let rs = Seq::<Rec>::empty();
        let rs = rs.push((decision_tag::GRANT_ID, self.grant_id));
        let rs = rs.push((decision_tag::DOOR_FPR, self.door_fpr));
        let rs = rs.push((decision_tag::SEQ, bytes::le64(self.seq)));
        let rs = rs.push((decision_tag::APPROVE, bytes::flag(self.approve)));
        let rs = rs.push((decision_tag::NOTE, encode_utf8(self.note)));
        let rs = rs.push((decision_tag::AUTHOR_KEY, self.author_key));
        rs
    }
}

/// The rule for the fields of a decision on an action.
pub struct ActionDecisionSchema;

impl Schema for ActionDecisionSchema {
    open spec fn fault(&self, tag: u16, value: Seq<u8>) -> Option<FormatError> {
        if tag == decision_tag::GRANT_ID {
            tlv::length_fault(tag, value, 16)
        } else if tag == decision_tag::DOOR_FPR || tag == decision_tag::AUTHOR_KEY {
            tlv::length_fault(tag, value, 32)
        } else if tag == decision_tag::SEQ {
            tlv::length_fault(tag, value, 8)
        } else if tag == decision_tag::APPROVE {
            tlv::flag_fault(tag, value)
        } else if tag == decision_tag::NOTE {
            text::note_bytes_fault(tag, value)
        } else {
            unknown::unknown_fault(tag)
        }
    }

    fn check(&self, tag: u16, value: &[u8]) -> (r: Option<FormatError>) {
        if tag == decision_tag::GRANT_ID {
            check_length(tag, value, 16)
        } else if tag == decision_tag::DOOR_FPR || tag == decision_tag::AUTHOR_KEY {
            check_length(tag, value, 32)
        } else if tag == decision_tag::SEQ {
            check_length(tag, value, 8)
        } else if tag == decision_tag::APPROVE {
            check_flag(tag, value)
        } else if tag == decision_tag::NOTE {
            note_bytes_verdict(tag, value)
        } else {
            unknown_verdict(tag)
        }
    }
}

/// The bytes of a decision on an action that are signed.
pub open spec fn action_decision_body_bytes(d: ActionDecisionView) -> Result<
    Seq<u8>,
    FormatError,
> {
    match text::note_fault(decision_tag::NOTE, d.note) {
        Some(e) => Err(e),
        None => tlv::sealed(d.recs()),
    }
}

/// The decision that the records hold, or the first field that is absent.
pub open spec fn action_decision_in(
    rs: Seq<Rec>,
    signature: Seq<u8>,
) -> Result<ActionDecisionView, FormatError> {
    if tlv::lookup(rs, decision_tag::SEQ) is None {
        Err(FormatError::MissingField { tag: decision_tag::SEQ })
    } else if tlv::lookup(rs, decision_tag::GRANT_ID) is None {
        Err(FormatError::MissingField { tag: decision_tag::GRANT_ID })
    } else if tlv::lookup(rs, decision_tag::DOOR_FPR) is None {
        Err(FormatError::MissingField { tag: decision_tag::DOOR_FPR })
    } else if tlv::lookup(rs, decision_tag::APPROVE) is None {
        Err(FormatError::MissingField { tag: decision_tag::APPROVE })
    } else if tlv::lookup(rs, decision_tag::NOTE) is None {
        Err(FormatError::MissingField { tag: decision_tag::NOTE })
    } else if tlv::lookup(rs, decision_tag::AUTHOR_KEY) is None {
        Err(FormatError::MissingField { tag: decision_tag::AUTHOR_KEY })
    } else {
        Ok(
            ActionDecisionView {
                seq: bytes::num64(tlv::lookup(rs, decision_tag::SEQ)->0),
                grant_id: tlv::lookup(rs, decision_tag::GRANT_ID)->0,
                door_fpr: tlv::lookup(rs, decision_tag::DOOR_FPR)->0,
                approve: tlv::lookup(rs, decision_tag::APPROVE)->0[0] == 1,
                note: decode_utf8(tlv::lookup(rs, decision_tag::NOTE)->0),
                author_key: tlv::lookup(rs, decision_tag::AUTHOR_KEY)->0,
                signature: signature,
            },
        )
    }
}

/// The decision that a body holds under a signature.
pub open spec fn action_decision_of(body: Seq<u8>, signature: Seq<u8>) -> Result<
    ActionDecisionView,
    FormatError,
> {
    match tlv::read(ActionDecisionSchema, body) {
        Err(e) => Err(e),
        Ok(rs) => action_decision_in(rs, signature),
    }
}

/// An optional field that is not known changes nothing in the decision that is read.
pub proof fn action_decision_reads_past_optional_fields(body: Seq<u8>, signature: Seq<u8>)
    requires
        action_decision_of(body, signature) is Ok,
    ensures
        action_decision_of(unknown::without_optional(body), signature)
            == action_decision_of(body, signature),
{
    unknown::optional_records_are_skipped(ActionDecisionSchema, body);
}

/// The decision that the bytes hold, whoever signed them.
pub open spec fn peeked_decision(b: Seq<u8>) -> Result<ActionDecisionView, FormatError> {
    if b.len() < SIGNATURE_LEN {
        Err(FormatError::BadHeaderSignature)
    } else {
        action_decision_of(b.skip(SIGNATURE_LEN as int), b.take(SIGNATURE_LEN as int))
    }
}

/// The decision that the bytes hold, where `signed` says whether the signature
/// holds under the author's key. Nothing is read of a body that is not signed.
pub open spec fn opened_decision(b: Seq<u8>, signed: bool, author_key: Seq<u8>) -> Result<
    ActionDecisionView,
    FormatError,
> {
    if b.len() < SIGNATURE_LEN || !signed {
        Err(FormatError::BadHeaderSignature)
    } else {
        match peeked_decision(b) {
            Err(e) => Err(e),
            Ok(d) => if d.author_key == author_key {
                Ok(d)
            } else {
                Err(FormatError::BadFieldLength { tag: decision_tag::AUTHOR_KEY, len: 32 })
            },
        }
    }
}

/// Under a signature that does not hold, no body is told from another: each is refused alike.
pub proof fn unsigned_decision_is_refused(b: Seq<u8>, author_key: Seq<u8>)
    ensures
        opened_decision(b, false, author_key)
            == Err::<ActionDecisionView, FormatError>(FormatError::BadHeaderSignature),
{
}

/// A decision on an action that was opened was read from the very body that its signature
/// was checked over.
pub proof fn decision_is_read_from_what_was_signed(b: Seq<u8>, author_key: Seq<u8>)
    requires
        opened_decision(b, true, author_key) is Ok,
    ensures
        transcript::claimed(Label::ActionDecision, b, author_key) is Ok,
        ({
            let claim = transcript::claimed(Label::ActionDecision, b, author_key)->Ok_0;
            opened_decision(b, true, author_key)
                == action_decision_of(claim.transcript.body, claim.signature)
        }),
{
}

/// A signed decision on an action survives being written and read back.
pub proof fn action_decision_round_trip(d: ActionDecisionView)
    requires
        d.sized(),
        action_decision_body_bytes(d) is Ok,
    ensures
        opened_decision(
            signed_bytes(d.signature, action_decision_body_bytes(d))->Ok_0,
            true,
            d.author_key,
        ) == Ok::<ActionDecisionView, FormatError>(d),
{
    broadcast use {
        tlv::group_records,
        bytes::group_numbers,
        encode_utf8_decode_utf8,
        encode_utf8_valid_utf8,
    };

    signature_parts(d.signature, action_decision_body_bytes(d)->Ok_0);
    tlv::read_wire(ActionDecisionSchema, d.recs());
}

/// The bytes of a decision on an action that are signed.
pub fn decision_body(d: &ActionDecision) -> (r: Result<Vec<u8>, FormatError>)
    ensures
        tlv::agrees(r, action_decision_body_bytes(d@)),
{
    broadcast use {tlv::group_records, bytes::group_numbers};

    refuse(note_verdict(decision_tag::NOTE, d.note.as_str()))?;
    let mut w = TlvWriter::new();
    w.put(decision_tag::GRANT_ID, d.grant_id.as_slice())?;
    w.put(decision_tag::DOOR_FPR, d.door_fpr.as_slice())?;
    w.put(decision_tag::SEQ, write64(d.seq).as_slice())?;
    w.put(decision_tag::APPROVE, flag_byte(d.approve).as_slice())?;
    w.put(decision_tag::NOTE, d.note.as_str().as_bytes())?;
    w.put(decision_tag::AUTHOR_KEY, d.author_key.as_slice())?;
    Ok(w.finish())
}

/// What the author signs of a decision on an action. The label is another than that of a
/// decision on access, which the same key signs.
pub fn decision_transcript(body: &[u8]) -> (r: Transcript)
    ensures
        r@ == (TranscriptView { label: Label::ActionDecision, body: body@ }),
{
    Transcript::new(Label::ActionDecision, body)
}

/// Write a signed decision on an action.
pub fn encode_decision(d: &ActionDecision) -> (r: Result<Vec<u8>, FormatError>)
    ensures
        tlv::agrees(r, signed_bytes(d@.signature, action_decision_body_bytes(d@))),
{
    let body = decision_body(d)?;
    Ok(with_signature(&d.signature, body.as_slice()))
}

/// Read the body of a decision under a signature.
fn decode_decision_body(body: &[u8], signature: [u8; SIGNATURE_LEN]) -> (r: Result<
    ActionDecision,
    FormatError,
>)
    ensures
        tlv::agrees(r, action_decision_of(body@, signature@)),
{
    let fs = read_fields(&ActionDecisionSchema, body)?;
    let seq = need(&fs, decision_tag::SEQ)?;
    let grant_id = need(&fs, decision_tag::GRANT_ID)?;
    let door_fpr = need(&fs, decision_tag::DOOR_FPR)?;
    let approve = need(&fs, decision_tag::APPROVE)?;
    let note = need(&fs, decision_tag::NOTE)?;
    let author_key = need(&fs, decision_tag::AUTHOR_KEY)?;
    Ok(
        ActionDecision {
            seq: read64(seq),
            grant_id: array(grant_id),
            door_fpr: array(door_fpr),
            approve: approve[0] == 1,
            note: utf8_text(note),
            author_key: array(author_key),
            signature,
        },
    )
}

/// Read a decision whoever signed it: for who keeps what was checked before.
pub fn peek_decision(bytes: &[u8]) -> (r: Result<ActionDecision, FormatError>)
    ensures
        tlv::agrees(r, peeked_decision(bytes@)),
{
    let (signature, body) = split_signature(bytes)?;
    decode_decision_body(body, signature)
}

/// The signature that is to be checked before a decision on an action is read.
pub fn decision_claim(bytes: &[u8], author_key: &[u8; 32]) -> (r: Result<Claim, FormatError>)
    ensures
        tlv::agrees(r, transcript::claimed(Label::ActionDecision, bytes@, author_key@)),
{
    transcript::claim(Label::ActionDecision, bytes, author_key)
}

/// Read a signed decision. `signed` says whether the signature over the body (see
/// [`decision_claim`]) holds under the author's key; the body names the same key.
pub fn decode_decision(bytes: &[u8], author_key: &[u8; 32], signed: bool) -> (r: Result<
    ActionDecision,
    FormatError,
>)
    ensures
        tlv::agrees(r, opened_decision(bytes@, signed, author_key@)),
{
    let (signature, body) = split_signature(bytes)?;
    if !signed {
        return Err(FormatError::BadHeaderSignature);
    }
    let decision = decode_decision_body(body, signature)?;
    if !same(decision.author_key.as_slice(), author_key.as_slice()) {
        return Err(bad(decision_tag::AUTHOR_KEY, 32));
    }
    Ok(decision)
}

} // verus!
