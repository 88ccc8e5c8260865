//! Validation of route requests: the format of their fields, their
//! timestamp, and the sender's permissions.

use vstd::prelude::*;
use vstd::utf8::encode_utf8;

use super::request::RouteRequest;
use crate::utils::clock::now_millis;
use crate::utils::error::CoreError;
use crate::utils::text::{
    ascii_alnum, chars_of, decimal, decimal_string, is_ascii_alnum, is_ascii_digit, is_ascii_lower,
    join, join_names, str_eq, string_of_chars,
};

verus! {

/// Why a field is invalid.
#[derive(Debug, Clone, Copy, PartialEq, Eq, Structural)]
pub enum ValidationErrorCode {
    /// The field is empty.
    EmptyField,
    /// The field is malformed.
    InvalidFormat,
    /// The field is out of range.
    OutOfRange,
    /// A permission is missing.
    PermissionDenied,
    /// A permission was not declared.
    PermissionNotDeclared,
}

/// The text of an error code.
pub open spec fn code_text(c: ValidationErrorCode) -> Seq<char> {
    match c {
        ValidationErrorCode::EmptyField => "EMPTY_FIELD"@,
        ValidationErrorCode::InvalidFormat => "INVALID_FORMAT"@,
        ValidationErrorCode::OutOfRange => "OUT_OF_RANGE"@,
        ValidationErrorCode::PermissionDenied => "PERMISSION_DENIED"@,
        ValidationErrorCode::PermissionNotDeclared => "PERMISSION_NOT_DECLARED"@,
    }
}

impl ValidationErrorCode {
    /// The text of this code, such as `EMPTY_FIELD`.
    pub fn to_string(&self) -> (r: String)
        ensures
            r@ == code_text(*self),
    {
        match self {
            ValidationErrorCode::EmptyField => String::from_str("EMPTY_FIELD"),
            ValidationErrorCode::InvalidFormat => String::from_str("INVALID_FORMAT"),
            ValidationErrorCode::OutOfRange => String::from_str("OUT_OF_RANGE"),
            ValidationErrorCode::PermissionDenied => String::from_str("PERMISSION_DENIED"),
            ValidationErrorCode::PermissionNotDeclared => String::from_str("PERMISSION_NOT_DECLARED"),
        }
    }
}

/// A field that failed validation.
#[derive(Debug, Clone, PartialEq, Eq)]
pub struct ValidationError {
    /// The field.
    pub field: String,
    /// What is wrong.
    pub message: String,
    /// Why.
    pub code: ValidationErrorCode,
}

/// An error as `field`, `message` and code, as sequences.
pub type ErrorTriple = (Seq<char>, Seq<char>, ValidationErrorCode);

/// The text of an error: `[CODE] field: message`.
pub open spec fn error_text(e: ErrorTriple) -> Seq<char> {
    "["@ + code_text(e.2) + "] "@ + e.0 + ": "@ + e.1
}

/// The errors of a list, as triples.
pub open spec fn triples_of(v: Seq<ValidationError>) -> Seq<ErrorTriple> {
    v.map_values(|e: ValidationError| (e.field@, e.message@, e.code))
}

/// `s` followed by `t`, as a new string.
fn cat(s: &str, t: &str) -> (r: String)
    ensures
        r@ == s@ + t@,
{
    let mut r = String::from_str(s);
    r.append(t);
    r
}

impl ValidationError {
    /// An error on `field` with `message` and `code`.
    pub fn new(field: &str, message: &str, code: ValidationErrorCode) -> (r: Self)
        ensures
            r.field@ == field@,
            r.message@ == message@,
            r.code == code,
    {
        ValidationError { field: field.to_owned(), message: message.to_owned(), code }
    }

    /// The text of this error: `[CODE] field: message`.
    pub fn to_string(&self) -> (r: String)
        ensures
            r@ == error_text((self.field@, self.message@, self.code)),
    {
        let c = self.code.to_string();
        let a = cat("[", c.as_str());
        let b = cat(a.as_str(), "] ");
        let d = cat(b.as_str(), self.field.as_str());
        let e = cat(d.as_str(), ": ");
        cat(e.as_str(), self.message.as_str())
    }
}

/// The outcome of a validation: valid, or the errors found.
#[derive(Debug, Clone)]
pub struct ValidationResult {
    /// Whether no error was found.
    pub is_valid: bool,
    /// The errors, in the order found.
    pub errors: Vec<ValidationError>,
}

impl ValidationResult {
    /// A valid outcome.
    pub fn success() -> (r: Self)
        ensures
            r.is_valid,
            r.errors@.len() == 0,
    {
        ValidationResult { is_valid: true, errors: Vec::new() }
    }

    /// An invalid outcome with `errors`.
    pub fn failure(errors: Vec<ValidationError>) -> (r: Self)
        ensures
            !r.is_valid,
            r.errors == errors,
    {
        ValidationResult { is_valid: false, errors }
    }

    /// Records `error`; the outcome becomes invalid.
    pub fn add_error(&mut self, error: ValidationError)
        ensures
            !final(self).is_valid,
            final(self).errors@ == old(self).errors@.push(error),
    {
        self.is_valid = false;
        self.errors.push(error);
    }

    /// Whether any error was recorded.
    pub fn has_errors(&self) -> (r: bool)
        ensures
            r == (self.errors@.len() > 0),
    {
        self.errors.len() > 0
    }

    /// `Ok` when valid, else `InvalidRequest` with the texts of the errors
    /// joined by `"; "`.
    pub fn into_result(self) -> (r: Result<(), CoreError>)
        ensures
            self.is_valid ==> r is Ok,
            !self.is_valid ==> (r matches Err(CoreError::InvalidRequest(m)) && m@ == join(
                triples_of(self.errors@).map_values(|e: ErrorTriple| error_text(e)),
                "; "@,
            )),
    {
        if self.is_valid {
            Ok(())
        } else {
            let mut texts: Vec<String> = Vec::new();
            let mut i: usize = 0;
            while i < self.errors.len()
                invariant
                    i <= self.errors.len(),
                    texts.deep_view() == triples_of(self.errors@).take(i as int).map_values(
                        |e: ErrorTriple| error_text(e),
                    ),
                decreases self.errors.len() - i,
            {
                let t = self.errors[i].to_string();
                let ghost before = texts.deep_view();
                texts.push(t);
                proof {
                    assert(texts.deep_view() =~= before.push(t@));
                    assert(triples_of(self.errors@).take(i + 1).map_values(|e: ErrorTriple| error_text(e))
                        =~= triples_of(self.errors@).take(i as int).map_values(|e: ErrorTriple| error_text(e)).push(
                        t@,
                    ));
                }
                i = i + 1;
            }
            proof {
                assert(triples_of(self.errors@).take(self.errors.len() as int) =~= triples_of(self.errors@));
            }
            Err(CoreError::InvalidRequest(join_names(&texts, "; ")))
        }
    }
}

/// Limits that the validator checks.
#[derive(Debug, Clone)]
pub struct ValidatorConfig {
    /// How far in the past a timestamp may lie, in seconds.
    pub max_timestamp_drift_past_secs: i64,
    /// How far in the future a timestamp may lie, in seconds.
    pub max_timestamp_drift_future_secs: i64,
    /// Longest request id, in bytes.
    pub max_request_id_length: usize,
    /// Longest sender id, in bytes.
    pub max_sender_length: usize,
    /// Longest action name, in bytes.
    pub max_action_length: usize,
}

impl Default for ValidatorConfig {
    fn default() -> (r: Self)
        ensures
            r.max_timestamp_drift_past_secs == 300,
            r.max_timestamp_drift_future_secs == 60,
            r.max_request_id_length == 128,
            r.max_sender_length == 64,
            r.max_action_length == 128,
    {
        ValidatorConfig {
            max_timestamp_drift_past_secs: 300,
            max_timestamp_drift_future_secs: 60,
            max_request_id_length: 128,
            max_sender_length: 64,
            max_action_length: 128,
        }
    }
}

/// The length of a text in UTF-8 bytes.
pub open spec fn byte_len(s: Seq<char>) -> nat {
    encode_utf8(s).len()
}

/// An id: letters, digits, `-` and `_`.
pub open spec fn id_chars(s: Seq<char>) -> bool {
    forall|i: int| 0 <= i < s.len() ==> #[trigger] is_ascii_alnum(s[i]) || s[i] == '-' || s[i] == '_'
}

/// The namespace of an action: a lower-case letter, then lower-case
/// letters, digits and `-`.
pub open spec fn is_namespace(s: Seq<char>) -> bool {
    &&& s.len() > 0
    &&& is_ascii_lower(s[0])
    &&& forall|i: int| 0 <= i < s.len() ==> #[trigger] is_ascii_lower(s[i]) || is_ascii_digit(s[i]) || s[i] == '-'
}

/// The name part of an action: a lower-case letter, then lower-case
/// letters, digits and `_`.
pub open spec fn is_action_part(s: Seq<char>) -> bool {
    &&& s.len() > 0
    &&& is_ascii_lower(s[0])
    &&& forall|i: int| 0 <= i < s.len() ==> #[trigger] is_ascii_lower(s[i]) || is_ascii_digit(s[i]) || s[i] == '_'
}

/// An action name: `namespace.action`.
pub open spec fn is_action_format(s: Seq<char>) -> bool {
    exists|p: int| 0 <= p < s.len() && s[p] == '.' && is_namespace(#[trigger] s.take(p)) && is_action_part(s.skip(p + 1))
}

/// The errors found in a request id, with the longest allowed length.
pub open spec fn request_id_errors(id: Seq<char>, max: usize) -> Seq<ErrorTriple> {
    if id.len() == 0 {
        seq![("request_id"@, "请求 ID 不能为空"@, ValidationErrorCode::EmptyField)]
    } else {
        let a: Seq<ErrorTriple> = if byte_len(id) > max {
            seq![("request_id"@, "请求 ID 长度超过限制（最大 "@ + decimal(max as nat) + " 字符）"@, ValidationErrorCode::OutOfRange)]
        } else {
            Seq::empty()
        };
        let b: Seq<ErrorTriple> = if !id_chars(id) {
            seq![("request_id"@, "请求 ID 只能包含字母、数字、连字符和下划线"@, ValidationErrorCode::InvalidFormat)]
        } else {
            Seq::empty()
        };
        a + b
    }
}

/// The errors found in a sender id, with the longest allowed length.
pub open spec fn sender_errors(s: Seq<char>, max: usize) -> Seq<ErrorTriple> {
    if s.len() == 0 {
        seq![("sender"@, "发送者 ID 不能为空"@, ValidationErrorCode::EmptyField)]
    } else {
        let a: Seq<ErrorTriple> = if byte_len(s) > max {
            seq![("sender"@, "发送者 ID 长度超过限制（最大 "@ + decimal(max as nat) + " 字符）"@, ValidationErrorCode::OutOfRange)]
        } else {
            Seq::empty()
        };
        let b: Seq<ErrorTriple> = if !id_chars(s) {
            seq![("sender"@, "发送者 ID 只能包含字母、数字、连字符和下划线"@, ValidationErrorCode::InvalidFormat)]
        } else {
            Seq::empty()
        };
        a + b
    }
}

/// The errors found in an action name, with the longest allowed length.
pub open spec fn action_errors(a: Seq<char>, max: usize) -> Seq<ErrorTriple> {
    if a.len() == 0 {
        seq![("action"@, "操作名称不能为空"@, ValidationErrorCode::EmptyField)]
    } else if byte_len(a) > max {
        seq![("action"@, "操作名称长度超过限制（最大 "@ + decimal(max as nat) + " 字符）"@, ValidationErrorCode::OutOfRange)]
    } else if !is_action_format(a) {
        seq![
            (
                "action"@,
                "操作名称格式无效: '"@ + a
                    + "'. 期望格式: 'namespace.action', 其中 namespace 使用小写字母、数字和连字符, action 使用小写字母、数字和下划线"@,
                ValidationErrorCode::InvalidFormat,
            ),
        ]
    } else {
        Seq::empty()
    }
}

/// The text a time is shown with: `chrono`'s display of the UTC time
/// that many milliseconds after the Unix epoch.
pub uninterp spec fn utc_text(ms: int) -> Seq<char>;

/// The display of the UTC time `ms` milliseconds after the Unix epoch, by
/// `chrono::DateTime::from_timestamp_millis` and its `Display`; a time out
/// of `chrono`'s range shows as the empty text.
///
/// Trusted: the text is named, a function of the time alone.
#[verifier::external_body]
fn show_utc(ms: i128) -> (r: String)
    ensures
        r@ == utc_text(ms as int),
{
    i64::try_from(ms).ok().and_then(chrono::DateTime::from_timestamp_millis).map(|d| d.to_string()).unwrap_or_default()
}

/// The errors found in a timestamp checked at time `now` (milliseconds),
/// with the allowed drifts in seconds.
pub open spec fn timestamp_errors(ts: i64, now: i64, past_secs: i64, future_secs: i64) -> Seq<ErrorTriple> {
    let earliest = now - past_secs * 1000;
    let latest = now + future_secs * 1000;
    if ts < earliest {
        seq![("timestamp"@, "时间戳过早: "@ + utc_text(ts as int) + " (允许的最早时间: "@ + utc_text(earliest) + ")"@, ValidationErrorCode::OutOfRange)]
    } else if ts > latest {
        seq![("timestamp"@, "时间戳过晚（超出未来时间限制）: "@ + utc_text(ts as int) + " (允许的最晚时间: "@ + utc_text(latest) + ")"@, ValidationErrorCode::OutOfRange)]
    } else {
        Seq::empty()
    }
}

/// The format errors of a request checked at time `now`.
pub open spec fn format_errors(c: ValidatorConfig, r: RouteRequest, now: i64) -> Seq<ErrorTriple> {
    request_id_errors(r.request_id@, c.max_request_id_length) + sender_errors(r.sender@, c.max_sender_length)
        + action_errors(r.action@, c.max_action_length) + timestamp_errors(
        r.timestamp,
        now,
        c.max_timestamp_drift_past_secs,
        c.max_timestamp_drift_future_secs,
    )
}

/// The permission errors: one for each required permission the sender
/// lacks, in order.
pub open spec fn permission_errors(sender: Seq<char>, action: Seq<char>, required: Seq<Seq<char>>, held: Seq<Seq<char>>, n: nat) -> Seq<ErrorTriple>
    decreases n,
{
    if n == 0 || n > required.len() {
        Seq::empty()
    } else {
        let rest = permission_errors(sender, action, required, held, (n - 1) as nat);
        let p = required[n - 1];
        if held.contains(p) {
            rest
        } else {
            rest.push(("permission"@, "发送者 '"@ + sender + "' 缺少权限 '"@ + p + "' 以执行 '"@ + action + "'"@, ValidationErrorCode::PermissionDenied))
        }
    }
}

/// The names held by a list.
pub open spec fn names(s: Seq<String>) -> Seq<Seq<char>> {
    s.map_values(|x: String| x@)
}

/// Checks route requests.
#[derive(Debug, Clone)]
pub struct RequestValidator {
    config: ValidatorConfig,
}

/// Whether `cs` are all letters, digits, `-` and `_`.
fn all_id_chars(cs: &Vec<char>) -> (r: bool)
    ensures
        r == id_chars(cs@),
{
    let mut i: usize = 0;
    while i < cs.len()
        invariant
            i <= cs.len(),
            forall|j: int| 0 <= j < i ==> #[trigger] is_ascii_alnum(cs@[j]) || cs@[j] == '-' || cs@[j] == '_',
        decreases cs.len() - i,
    {
        if !(ascii_alnum(cs[i]) || cs[i] == '-' || cs[i] == '_') {
            return false;
        }
        i = i + 1;
    }
    true
}

/// Position of the first `.` in `cs`.
fn first_dot(cs: &Vec<char>) -> (r: Option<usize>)
    ensures
        match r {
            Some(p) => p < cs.len() && cs@[p as int] == '.' && forall|j: int| 0 <= j < p ==> cs@[j] != '.',
            None => forall|j: int| 0 <= j < cs.len() ==> cs@[j] != '.',
        },
{
    let mut i: usize = 0;
    while i < cs.len()
        invariant
            i <= cs.len(),
            forall|j: int| 0 <= j < i ==> cs@[j] != '.',
        decreases cs.len() - i,
    {
        if cs[i] == '.' {
            return Some(i);
        }
        i = i + 1;
    }
    None
}

/// Whether `cs[lo..hi]` is a namespace (`dash`) or an action part (not
/// `dash`).
fn part_ok(cs: &Vec<char>, lo: usize, hi: usize, dash: bool) -> (r: bool)
    requires
        lo <= hi <= cs.len(),
    ensures
        dash ==> r == is_namespace(cs@.subrange(lo as int, hi as int)),
        !dash ==> r == is_action_part(cs@.subrange(lo as int, hi as int)),
{
    let ghost s = cs@.subrange(lo as int, hi as int);
    if lo == hi {
        return false;
    }
    let c0 = cs[lo];
    if !('a' <= c0 && c0 <= 'z') {
        proof {
            assert(s[0] == c0);
        }
        return false;
    }
    let mut i: usize = lo;
    while i < hi
        invariant
            lo <= i <= hi <= cs.len(),
            s == cs@.subrange(lo as int, hi as int),
            dash ==> forall|j: int| 0 <= j < i - lo ==> #[trigger] is_ascii_lower(s[j]) || is_ascii_digit(s[j]) || s[j] == '-',
            !dash ==> forall|j: int| 0 <= j < i - lo ==> #[trigger] is_ascii_lower(s[j]) || is_ascii_digit(s[j]) || s[j] == '_',
        decreases hi - i,
    {
        let c = cs[i];
        let ok = ('a' <= c && c <= 'z') || ('0' <= c && c <= '9') || (if dash { c == '-' } else { c == '_' });
        proof {
            assert(s[i - lo] == c);
        }
        if !ok {
            proof {
                let k = i - lo;
                assert(!(is_ascii_lower(s[k]) || is_ascii_digit(s[k]) || s[k] == '-') || !dash);
                assert(!(is_ascii_lower(s[k]) || is_ascii_digit(s[k]) || s[k] == '_') || dash);
            }
            return false;
        }
        i = i + 1;
    }
    proof {
        assert(s[0] == c0);
    }
    true
}

/// Whether `action` is `namespace.action`: a lower-case letter then
/// lower-case letters, digits and `-`; a dot; a lower-case letter then
/// lower-case letters, digits and `_`.
pub fn is_valid_action_format(action: &str) -> (r: bool)
    ensures
        r == is_action_format(action@),
{
    let cs = chars_of(action);
    match first_dot(&cs) {
        None => {
            proof {
                if is_action_format(action@) {
                    let p = choose|p: int| 0 <= p < action@.len() && action@[p] == '.' && is_namespace(#[trigger] action@.take(p)) && is_action_part(action@.skip(p + 1));
                    assert(cs@[p] == '.');
                }
            }
            false
        },
        Some(p) => {
            let a = part_ok(&cs, 0, p, true);
            let b = part_ok(&cs, p + 1, cs.len(), false);
            proof {
                assert(cs@.subrange(0, p as int) =~= action@.take(p as int));
                assert(cs@.subrange(p + 1, cs.len() as int) =~= action@.skip(p + 1));
                if a && b {
                    assert(action@[p as int] == '.');
                    assert(is_namespace(action@.take(p as int)) && is_action_part(action@.skip(p + 1)));
                }
                if is_action_format(action@) {
                    let q = choose|q: int| 0 <= q < action@.len() && action@[q] == '.' && is_namespace(#[trigger] action@.take(q)) && is_action_part(action@.skip(q + 1));
                    if q > p {
                        let t = action@.take(q);
                        assert(t[p as int] == '.');
                        assert(is_ascii_lower(t[p as int]) || is_ascii_digit(t[p as int]) || t[p as int] == '-');
                        assert(false);
                    }
                    if q < p {
                        assert(cs@[q] != '.');
                    }
                }
            }
            a && b
        },
    }
}

/// The namespace and the action of a valid action name, cut at its dot;
/// `None` for a name that is not `namespace.action`.
pub fn parse_action(action: &str) -> (r: Option<(String, String)>)
    ensures
        match r {
            Some((ns, name)) => is_action_format(action@) && action@ == ns@ + seq!['.'] + name@ && !ns@.contains('.'),
            None => !is_action_format(action@),
        },
{
    if !is_valid_action_format(action) {
        return None;
    }
    let cs = chars_of(action);
    match first_dot(&cs) {
        None => {
            proof {
                let p = choose|p: int| 0 <= p < action@.len() && action@[p] == '.' && is_namespace(#[trigger] action@.take(p)) && is_action_part(action@.skip(p + 1));
                assert(cs@[p] == '.');
            }
            None
        },
        Some(p) => {
            let mut head: Vec<char> = Vec::new();
            let mut i: usize = 0;
            while i < p
                invariant
                    i <= p < cs.len(),
                    head@ == cs@.take(i as int),
                decreases p - i,
            {
                head.push(cs[i]);
                proof {
                    assert(cs@.take(i + 1) =~= cs@.take(i as int).push(cs@[i as int]));
                }
                i = i + 1;
            }
            let mut tail: Vec<char> = Vec::new();
            let mut j: usize = p + 1;
            while j < cs.len()
                invariant
                    p < j <= cs.len(),
                    tail@ == cs@.subrange(p + 1, j as int),
                decreases cs.len() - j,
            {
                tail.push(cs[j]);
                proof {
                    assert(cs@.subrange(p + 1, j + 1) =~= cs@.subrange(p + 1, j as int).push(cs@[j as int]));
                }
                j = j + 1;
            }
            let ns = string_of_chars(&head);
            let name = string_of_chars(&tail);
            proof {
                assert(cs@ =~= cs@.take(p as int) + seq!['.'] + cs@.subrange(p + 1, cs.len() as int));
                assert forall|k: int| 0 <= k < head@.len() implies head@[k] != '.' by {
                    assert(head@[k] == cs@[k]);
                }
            }
            Some((ns, name))
        },
    }
}

impl RequestValidator {
    /// A validator with the default limits.
    pub fn new() -> (r: Self)
        ensures
            r.limits().max_timestamp_drift_past_secs == 300,
            r.limits().max_timestamp_drift_future_secs == 60,
            r.limits().max_request_id_length == 128,
            r.limits().max_sender_length == 64,
            r.limits().max_action_length == 128,
    {
        RequestValidator { config: ValidatorConfig::default() }
    }

    /// A validator with the limits `config`.
    pub fn with_config(config: ValidatorConfig) -> (r: Self)
        ensures
            r.limits() == config,
    {
        RequestValidator { config }
    }

    /// The limits.
    pub closed spec fn limits(&self) -> ValidatorConfig {
        self.config
    }

    /// The limits.
    pub fn config(&self) -> (r: &ValidatorConfig)
        ensures
            *r == self.limits(),
    {
        &self.config
    }

    /// Checks request id `request_id`: non-empty, at most the allowed
    /// length in bytes, and made of letters, digits, `-` and `_`. The
    /// errors found are added to `result`.
    pub fn validate_request_id(&self, request_id: &str, result: &mut ValidationResult)
        ensures
            triples_of(final(result).errors@) == triples_of(old(result).errors@) + request_id_errors(
                request_id@,
                self.limits().max_request_id_length,
            ),
            final(result).is_valid == (old(result).is_valid && request_id_errors(
                request_id@,
                self.limits().max_request_id_length,
            ).len() == 0),
    {
        self.check_id(request_id, "request_id", "请求 ID 不能为空", "请求 ID 长度超过限制（最大 ",
            "请求 ID 只能包含字母、数字、连字符和下划线", self.config.max_request_id_length, result);
        proof {
            reveal_strlit("request_id");
        }
    }

    /// Checks sender id `sender` as request ids are checked, with the
    /// sender's length limit. The errors found are added to `result`.
    pub fn validate_sender(&self, sender: &str, result: &mut ValidationResult)
        ensures
            triples_of(final(result).errors@) == triples_of(old(result).errors@) + sender_errors(
                sender@,
                self.limits().max_sender_length,
            ),
            final(result).is_valid == (old(result).is_valid && sender_errors(
                sender@,
                self.limits().max_sender_length,
            ).len() == 0),
    {
        self.check_id(sender, "sender", "发送者 ID 不能为空", "发送者 ID 长度超过限制（最大 ",
            "发送者 ID 只能包含字母、数字、连字符和下划线", self.config.max_sender_length, result);
    }

    fn check_id(
        &self,
        value: &str,
        field: &str,
        empty_msg: &str,
        long_msg: &str,
        chars_msg: &str,
        max: usize,
        result: &mut ValidationResult,
    )
        ensures
            triples_of(final(result).errors@) == triples_of(old(result).errors@) + ({
                if value@.len() == 0 {
                    seq![(field@, empty_msg@, ValidationErrorCode::EmptyField)]
                } else {
                    let a: Seq<ErrorTriple> = if byte_len(value@) > max {
                        seq![(field@, long_msg@ + decimal(max as nat) + " 字符）"@, ValidationErrorCode::OutOfRange)]
                    } else {
                        Seq::empty()
                    };
                    let b: Seq<ErrorTriple> = if !id_chars(value@) {
                        seq![(field@, chars_msg@, ValidationErrorCode::InvalidFormat)]
                    } else {
                        Seq::empty()
                    };
                    a + b
                }
            }),
            final(result).is_valid == (old(result).is_valid && value@.len() > 0 && byte_len(value@) <= max
                && id_chars(value@)),
    {
        let ghost t0 = triples_of(result.errors@);
        if value.is_empty() {
            result.add_error(ValidationError::new(field, empty_msg, ValidationErrorCode::EmptyField));
            proof {
                assert(triples_of(result.errors@) =~= t0 + seq![(field@, empty_msg@, ValidationErrorCode::EmptyField)]);
            }
            return;
        }
        let ghost v0 = result.is_valid;
        if value.as_bytes().len() > max {
            let n = decimal_string(max as u64);
            let m1 = cat(long_msg, n.as_str());
            let m2 = cat(m1.as_str(), " 字符）");
            result.add_error(ValidationError::new(field, m2.as_str(), ValidationErrorCode::OutOfRange));
        }
        let ghost t1 = triples_of(result.errors@);
        proof {
            let a: Seq<ErrorTriple> = if byte_len(value@) > max {
                seq![(field@, long_msg@ + decimal(max as nat) + " 字符）"@, ValidationErrorCode::OutOfRange)]
            } else {
                Seq::empty()
            };
            assert(t1 =~= t0 + a);
        }
        let cs = chars_of(value);
        if !all_id_chars(&cs) {
            result.add_error(ValidationError::new(field, chars_msg, ValidationErrorCode::InvalidFormat));
            proof {
                assert(triples_of(result.errors@) =~= t1 + seq![(field@, chars_msg@, ValidationErrorCode::InvalidFormat)]);
            }
        } else {
            proof {
                assert(triples_of(result.errors@) =~= t1 + Seq::<ErrorTriple>::empty());
            }
        }
    }

    /// Checks action name `action`: non-empty, at most the allowed length
    /// in bytes, and `namespace.action`; checking stops at the first
    /// failure. The error found is added to `result`.
    pub fn validate_action(&self, action: &str, result: &mut ValidationResult)
        ensures
            triples_of(final(result).errors@) == triples_of(old(result).errors@) + action_errors(
                action@,
                self.limits().max_action_length,
            ),
            final(result).is_valid == (old(result).is_valid && action_errors(
                action@,
                self.limits().max_action_length,
            ).len() == 0),
    {
        let ghost t0 = triples_of(result.errors@);
        if action.is_empty() {
            result.add_error(ValidationError::new("action", "操作名称不能为空", ValidationErrorCode::EmptyField));
            proof {
                assert(triples_of(result.errors@) =~= t0 + seq![("action"@, "操作名称不能为空"@, ValidationErrorCode::EmptyField)]);
            }
            return;
        }
        if action.as_bytes().len() > self.config.max_action_length {
            let n = decimal_string(self.config.max_action_length as u64);
            let m1 = cat("操作名称长度超过限制（最大 ", n.as_str());
            let m2 = cat(m1.as_str(), " 字符）");
            result.add_error(ValidationError::new("action", m2.as_str(), ValidationErrorCode::OutOfRange));
            proof {
                assert(triples_of(result.errors@) =~= t0 + action_errors(action@, self.limits().max_action_length));
            }
            return;
        }
        if !is_valid_action_format(action) {
            let m1 = cat("操作名称格式无效: '", action);
            let m2 = cat(m1.as_str(), "'. 期望格式: 'namespace.action', 其中 namespace 使用小写字母、数字和连字符, action 使用小写字母、数字和下划线");
            result.add_error(ValidationError::new("action", m2.as_str(), ValidationErrorCode::InvalidFormat));
            proof {
                assert(triples_of(result.errors@) =~= t0 + action_errors(action@, self.limits().max_action_length));
            }
            return;
        }
        proof {
            assert(triples_of(result.errors@) =~= t0 + action_errors(action@, self.limits().max_action_length));
        }
    }

    /// Checks timestamp `timestamp` against time `now` (both in
    /// milliseconds): no earlier than the allowed past drift, no later than
    /// the allowed future drift. The error found is added to `result`.
    pub fn validate_timestamp_at(&self, timestamp: i64, now: i64, result: &mut ValidationResult)
        ensures
            triples_of(final(result).errors@) == triples_of(old(result).errors@) + timestamp_errors(
                timestamp,
                now,
                self.limits().max_timestamp_drift_past_secs,
                self.limits().max_timestamp_drift_future_secs,
            ),
            final(result).is_valid == (old(result).is_valid && timestamp_errors(
                timestamp,
                now,
                self.limits().max_timestamp_drift_past_secs,
                self.limits().max_timestamp_drift_future_secs,
            ).len() == 0),
    {
        let ghost t0 = triples_of(result.errors@);
        let earliest: i128 = (now as i128) - (self.config.max_timestamp_drift_past_secs as i128) * 1000;
        let latest: i128 = (now as i128) + (self.config.max_timestamp_drift_future_secs as i128) * 1000;
        let ts = timestamp as i128;
        if ts < earliest {
            let a = show_utc(ts);
            let b = show_utc(earliest);
            let m1 = cat("时间戳过早: ", a.as_str());
            let m2 = cat(m1.as_str(), " (允许的最早时间: ");
            let m3 = cat(m2.as_str(), b.as_str());
            let m4 = cat(m3.as_str(), ")");
            result.add_error(ValidationError::new("timestamp", m4.as_str(), ValidationErrorCode::OutOfRange));
        } else if ts > latest {
            let a = show_utc(ts);
            let b = show_utc(latest);
            let m1 = cat("时间戳过晚（超出未来时间限制）: ", a.as_str());
            let m2 = cat(m1.as_str(), " (允许的最晚时间: ");
            let m3 = cat(m2.as_str(), b.as_str());
            let m4 = cat(m3.as_str(), ")");
            result.add_error(ValidationError::new("timestamp", m4.as_str(), ValidationErrorCode::OutOfRange));
        }
        proof {
            assert(triples_of(result.errors@) =~= t0 + timestamp_errors(
                timestamp,
                now,
                self.limits().max_timestamp_drift_past_secs,
                self.limits().max_timestamp_drift_future_secs,
            ));
        }
    }

    /// Checks the format of `request` at time `now`: its id, sender,
    /// action and timestamp, in that order.
    pub fn validate_format_at(&self, request: &RouteRequest, now: i64) -> (r: ValidationResult)
        ensures
            triples_of(r.errors@) == format_errors(self.limits(), *request, now),
            r.is_valid == (format_errors(self.limits(), *request, now).len() == 0),
    {
        let mut result = ValidationResult::success();
        proof {
            assert(triples_of(result.errors@) =~= Seq::<ErrorTriple>::empty());
        }
        self.validate_request_id(request.request_id.as_str(), &mut result);
        self.validate_sender(request.sender.as_str(), &mut result);
        self.validate_action(request.action.as_str(), &mut result);
        self.validate_timestamp_at(request.timestamp, now, &mut result);
        proof {
            assert(triples_of(result.errors@) =~= format_errors(self.limits(), *request, now));
        }
        result
    }

    /// Checks the format of `request` now.
    pub fn validate_format(&self, request: &RouteRequest) -> (r: ValidationResult)
        ensures
            exists|now: i64| #[trigger] format_errors(self.limits(), *request, now) == triples_of(r.errors@)
                && r.is_valid == (format_errors(self.limits(), *request, now).len() == 0),
    {
        let now = now_millis();
        self.validate_format_at(request, now)
    }

    /// Checks that the sender of `request` holds every permission in
    /// `required`: one error for each it lacks, in order.
    pub fn validate_permission(
        &self,
        request: &RouteRequest,
        required_permissions: &[String],
        sender_permissions: &[String],
    ) -> (r: ValidationResult)
        ensures
            triples_of(r.errors@) == permission_errors(
                request.sender@,
                request.action@,
                names(required_permissions@),
                names(sender_permissions@),
                required_permissions@.len(),
            ),
            r.is_valid == (triples_of(r.errors@).len() == 0),
    {
        let mut result = ValidationResult::success();
        proof {
            assert(triples_of(result.errors@) =~= Seq::<ErrorTriple>::empty());
        }
        let mut i: usize = 0;
        while i < required_permissions.len()
            invariant
                i <= required_permissions.len(),
                triples_of(result.errors@) == permission_errors(
                    request.sender@,
                    request.action@,
                    names(required_permissions@),
                    names(sender_permissions@),
                    i as nat,
                ),
                result.is_valid == (result.errors@.len() == 0),
            decreases required_permissions.len() - i,
        {
            let p = required_permissions[i].as_str();
            let ghost t0 = triples_of(result.errors@);
            if !contains_name(sender_permissions, p) {
                let m1 = cat("发送者 '", request.sender.as_str());
                let m2 = cat(m1.as_str(), "' 缺少权限 '");
                let m3 = cat(m2.as_str(), p);
                let m4 = cat(m3.as_str(), "' 以执行 '");
                let m5 = cat(m4.as_str(), request.action.as_str());
                let m6 = cat(m5.as_str(), "'");
                result.add_error(ValidationError::new("permission", m6.as_str(), ValidationErrorCode::PermissionDenied));
                proof {
                    assert(triples_of(result.errors@) =~= t0.push(("permission"@, m6@, ValidationErrorCode::PermissionDenied)));
                }
            }
            proof {
                assert(names(required_permissions@)[i as int] == p@);
            }
            i = i + 1;
        }
        result
    }

    /// Validates `request` at time `now`: its format first, then the
    /// sender's permissions. Format errors give `InvalidRequest` with their
    /// texts joined by `"; "`; missing permissions give `PermissionDenied`
    /// with their messages joined by `"; "`.
    pub fn validate_at(
        &self,
        request: &RouteRequest,
        required_permissions: &[String],
        sender_permissions: &[String],
        now: i64,
    ) -> (r: Result<(), CoreError>)
        ensures
            ({
                let fe = format_errors(self.limits(), *request, now);
                let pe = permission_errors(
                    request.sender@,
                    request.action@,
                    names(required_permissions@),
                    names(sender_permissions@),
                    required_permissions@.len(),
                );
                if fe.len() > 0 {
                    r matches Err(CoreError::InvalidRequest(m)) && m@ == join(fe.map_values(|e: ErrorTriple| error_text(e)), "; "@)
                } else if pe.len() > 0 {
                    r matches Err(CoreError::PermissionDenied(m)) && m@ == join(pe.map_values(|e: ErrorTriple| e.1), "; "@)
                } else {
                    r is Ok
                }
            }),
    {
        let format_result = self.validate_format_at(request, now);
        if format_result.has_errors() {
            return format_result.into_result();
        }
        let permission_result = self.validate_permission(request, required_permissions, sender_permissions);
        if permission_result.has_errors() {
            let mut messages: Vec<String> = Vec::new();
            let mut i: usize = 0;
            while i < permission_result.errors.len()
                invariant
                    i <= permission_result.errors.len(),
                    messages.deep_view() == triples_of(permission_result.errors@).take(i as int).map_values(
                        |e: ErrorTriple| e.1,
                    ),
                decreases permission_result.errors.len() - i,
            {
                let m = permission_result.errors[i].message.clone();
                let ghost before = messages.deep_view();
                messages.push(m);
                proof {
                    assert(messages.deep_view() =~= before.push(m@));
                    assert(triples_of(permission_result.errors@).take(i + 1).map_values(|e: ErrorTriple| e.1)
                        =~= triples_of(permission_result.errors@).take(i as int).map_values(|e: ErrorTriple| e.1).push(m@));
                }
                i = i + 1;
            }
            proof {
                assert(triples_of(permission_result.errors@).take(permission_result.errors.len() as int)
                    =~= triples_of(permission_result.errors@));
            }
            return Err(CoreError::PermissionDenied(join_names(&messages, "; ")));
        }
        Ok(())
    }

    /// Validates `request` now: its format, then the sender's permissions.
    pub fn validate(
        &self,
        request: &RouteRequest,
        required_permissions: &[String],
        sender_permissions: &[String],
    ) -> (r: Result<(), CoreError>)
        ensures
            exists|now: i64| {
                let fe = #[trigger] format_errors(self.limits(), *request, now);
                let pe = permission_errors(
                    request.sender@,
                    request.action@,
                    names(required_permissions@),
                    names(sender_permissions@),
                    required_permissions@.len(),
                );
                if fe.len() > 0 {
                    r matches Err(CoreError::InvalidRequest(m)) && m@ == join(fe.map_values(|e: ErrorTriple| error_text(e)), "; "@)
                } else if pe.len() > 0 {
                    r matches Err(CoreError::PermissionDenied(m)) && m@ == join(pe.map_values(|e: ErrorTriple| e.1), "; "@)
                } else {
                    r is Ok
                }
            },
    {
        let now = now_millis();
        self.validate_at(request, required_permissions, sender_permissions, now)
    }
}

/// Whether `held` holds `x`.
fn contains_name(held: &[String], x: &str) -> (r: bool)
    ensures
        r == names(held@).contains(x@),
{
    let mut i: usize = 0;
    while i < held.len()
        invariant
            i <= held.len(),
            forall|j: int| 0 <= j < i ==> held@[j]@ != x@,
        decreases held.len() - i,
    {
        if str_eq(held[i].as_str(), x) {
            proof {
                assert(names(held@)[i as int] == x@);
            }
            return true;
        }
        i = i + 1;
    }
    proof {
        if names(held@).contains(x@) {
            let j = choose|j: int| 0 <= j < names(held@).len() && names(held@)[j] == x@;
            assert(held@[j]@ == x@);
        }
    }
    false
}

} // verus!
