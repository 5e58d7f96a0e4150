//! The exec daemon's request rules: what a command may be, how long it may
//! run, what environment it gets, how much output is kept, and the table of
//! detached runs.
use vstd::prelude::*;

pub mod files;

use crate::common::error::{api_error, ApiError};
use crate::num::{dec_text, nat_string};
use crate::text::{
    chars_of, eq_ignore_case, eq_nocase, extend_str, lower, lower_char, has_prefix, split, split_class, starts_with,
    string_of, trim, trim_class, CharClass,
};

verus! {

/// Most detached runs remembered before finished ones are forgotten.
pub const MAX_DETACHED_JOBS: usize = 64;

/// What to run: an argv, or a shell string for `/bin/sh -c`.
#[derive(Debug)]
pub enum CommandSpec {
    Argv(Vec<String>),
    Shell(String),
}

/// An exec request as received.
#[derive(Debug)]
pub struct ExecRequest {
    pub command: CommandSpec,
    pub cwd: Option<String>,
    pub timeout_ms: Option<u64>,
    /// Extra environment, name and value, in the order the request held them.
    pub env: Option<Vec<(String, String)>>,
    pub stdin: Option<String>,
    pub pty: Option<bool>,
    pub detach: Option<bool>,
}

/// The result of one exec.
#[derive(Debug, Clone)]
pub struct ExecResponse {
    pub stdout: String,
    pub stderr: String,
    pub exit_code: Option<i32>,
    pub timed_out: bool,
    pub duration_ms: u64,
    /// Not everything the command wrote is here: the output cap was hit, or
    /// reading stopped before end of file.
    pub truncated: bool,
    /// Both pipes reached end of file before the response was built.
    pub output_complete: bool,
    pub cwd: String,
    pub exec_id: String,
    pub detached: bool,
    pub status: Option<&'static str>,
}

#[derive(Debug)]
pub struct CancelResponse {
    pub exec_id: String,
    /// `false` when the id is known but the exec had already finished.
    pub cancelled: bool,
}

/// PTY exec is not offered.
pub fn reject_pty(req: &ExecRequest) -> (r: Result<(), ApiError>)
    ensures
        req.pty == Some(true) ==> r is Err && api_error(
            r->Err_0,
            400,
            "invalid_request"@,
            "pty exec is not implemented; use POST /v1/exec/stream for incremental stdout/stderr"@,
        ),
        req.pty != Some(true) ==> r is Ok,
{
    match req.pty {
        Some(true) => Err(
            ApiError::invalid_request(
                "pty exec is not implemented; use POST /v1/exec/stream for incremental stdout/stderr".to_owned(),
            ),
        ),
        _ => Ok(()),
    }
}

/// The argv to run: a non-empty argv whose first word is not empty, or
/// `/bin/sh -c` and a non-empty script.
pub fn command_argv(spec: CommandSpec) -> (r: Result<Vec<String>, ApiError>)
    ensures
        match spec {
            CommandSpec::Argv(parts) => if parts@.len() == 0 {
                r is Err && api_error(
                    r->Err_0,
                    400,
                    "invalid_request"@,
                    "command argv must not be empty"@,
                )
            } else if parts@[0]@.len() == 0 {
                r is Err && api_error(
                    r->Err_0,
                    400,
                    "invalid_request"@,
                    "command[0] must not be empty"@,
                )
            } else {
                r == Ok::<Vec<String>, ApiError>(parts)
            },
            CommandSpec::Shell(script) => if script@.len() == 0 {
                r is Err && api_error(
                    r->Err_0,
                    400,
                    "invalid_request"@,
                    "command must not be empty"@,
                )
            } else {
                r is Ok && r->Ok_0@.len() == 3 && r->Ok_0@[0]@ == "/bin/sh"@ && r->Ok_0@[1]@
                    == "-c"@ && r->Ok_0@[2] == script
            },
        },
{
    match spec {
        CommandSpec::Argv(parts) => {
            if parts.len() == 0 {
                return Err(ApiError::invalid_request("command argv must not be empty".to_owned()));
            }
            if parts[0].as_str().is_empty() {
                return Err(ApiError::invalid_request("command[0] must not be empty".to_owned()));
            }
            Ok(parts)
        },
        CommandSpec::Shell(script) => {
            if script.as_str().is_empty() {
                return Err(ApiError::invalid_request("command must not be empty".to_owned()));
            }
            let mut v: Vec<String> = Vec::new();
            v.push("/bin/sh".to_owned());
            v.push("-c".to_owned());
            v.push(script);
            Ok(v)
        },
    }
}

/// Some comma-separated entry of `Accept`, trimmed, starts with
/// `text/event-stream`.
pub open spec fn accepts_sse(accept: Seq<char>) -> bool {
    exists|i: int|
        0 <= i < split(accept, CharClass::Is(',')).len() && has_prefix(
            trim(#[trigger] split(accept, CharClass::Is(','))[i], CharClass::Whitespace),
            "text/event-stream"@,
        )
}

/// Stream as server-sent events rather than NDJSON.
pub fn wants_sse(accept: &str) -> (b: bool)
    ensures
        b == accepts_sse(accept@),
{
    let c = chars_of(accept);
    let parts = split_class(c.as_slice(), CharClass::Is(','));
    let want = chars_of("text/event-stream");
    let mut i: usize = 0;
    while i < parts.len()
        invariant
            i <= parts@.len(),
            parts.deep_view() == split(accept@, CharClass::Is(',')),
            want@ == "text/event-stream"@,
            forall|j: int|
                0 <= j < i ==> !has_prefix(
                    trim(#[trigger] parts.deep_view()[j], CharClass::Whitespace),
                    "text/event-stream"@,
                ),
        decreases parts@.len() - i,
    {
        assert(parts.deep_view()[i as int] == parts@[i as int]@);
        let t = trim_class(parts[i].as_slice(), CharClass::Whitespace);
        if starts_with(t.as_slice(), want.as_slice()) {
            return true;
        }
        i = i + 1;
    }
    false
}

/// The time limit in milliseconds: the request's or the default, at least
/// 1 ms and at most the maximum.
pub open spec fn clamped(default_ms: u64, max_ms: u64, requested: Option<u64>) -> u64 {
    let t = match requested {
        Some(v) => v,
        None => default_ms,
    };
    if t < 1 {
        1
    } else if t > max_ms {
        max_ms
    } else {
        t
    }
}

pub fn clamp_timeout(default_ms: u64, max_ms: u64, requested: Option<u64>) -> (t: u64)
    ensures
        t == clamped(default_ms, max_ms, requested),
{
    let t = match requested {
        Some(v) => v,
        None => default_ms,
    };
    if t < 1 {
        1
    } else if t > max_ms {
        max_ms
    } else {
        t
    }
}

/// Names that carry a secret value or the path to one; never handed to a
/// child.
pub open spec fn secret_names() -> Seq<Seq<char>> {
    seq![
        "BOX_TOKEN"@,
        "BOX_HOST_TOKEN"@,
        "BOX_VNC_PASSWORD"@,
        "BOX_TOKEN_FILE"@,
        "BOX_HOST_TOKEN_FILE"@,
        "BOX_VNC_PASSWORD_FILE"@,
    ]
}

/// The secret names, values first, then the file paths.
pub fn strip_env_keys() -> (v: Vec<&'static str>)
    ensures
        v@.len() == 6,
        forall|i: int| 0 <= i < 6 ==> (#[trigger] v@[i])@ == secret_names()[i],
{
    let v: Vec<&'static str> = vec![
        "BOX_TOKEN",
        "BOX_HOST_TOKEN",
        "BOX_VNC_PASSWORD",
        "BOX_TOKEN_FILE",
        "BOX_HOST_TOKEN_FILE",
        "BOX_VNC_PASSWORD_FILE",
    ];
    v
}

pub open spec fn secret_key(k: Seq<char>) -> bool {
    exists|i: int| 0 <= i < 6 && eq_nocase(#[trigger] secret_names()[i], k)
}

/// A secret name, compared without regard to ASCII case.
pub fn is_secret_key(key: &str) -> (b: bool)
    ensures
        b == secret_key(key@),
{
    let names = strip_env_keys();
    let k = chars_of(key);
    let mut i: usize = 0;
    while i < names.len()
        invariant
            i <= 6,
            names@.len() == 6,
            k@ == key@,
            forall|j: int| 0 <= j < 6 ==> (#[trigger] names@[j])@ == secret_names()[j],
            forall|j: int| 0 <= j < i ==> !eq_nocase(#[trigger] secret_names()[j], key@),
        decreases 6 - i,
    {
        let n = chars_of(names[i]);
        if eq_ignore_case(n.as_slice(), k.as_slice()) {
            return true;
        }
        i = i + 1;
    }
    false
}

} // verus!

verus! {

/// One change to a child's environment, as the contracts see it.
pub enum EnvSpec {
    Remove(Seq<char>),
    Put(Seq<char>, Seq<char>),
}

/// One change to a child's environment, applied in order.
#[derive(Debug)]
pub enum EnvOp {
    Remove(&'static str),
    Put(String, String),
}

impl EnvOp {
    pub open spec fn spec(&self) -> EnvSpec {
        match self {
            EnvOp::Remove(k) => EnvSpec::Remove(k@),
            EnvOp::Put(k, v) => EnvSpec::Put(k@, v@),
        }
    }
}

pub open spec fn ops_view(v: Seq<EnvOp>) -> Seq<EnvSpec> {
    v.map_values(|o: EnvOp| o.spec())
}

/// The names and values of the requested environment.
pub open spec fn pairs(extra: Seq<(String, String)>) -> Seq<(Seq<char>, Seq<char>)> {
    extra.map_values(|p: (String, String)| (p.0@, p.1@))
}

/// A name that is empty or holds `=` or NUL, or a value holding NUL.
pub open spec fn bad_pair(k: Seq<char>, v: Seq<char>) -> bool {
    k.len() == 0 || k.contains('=') || k.contains('\0') || v.contains('\0')
}

pub open spec fn any_bad(ps: Seq<(Seq<char>, Seq<char>)>) -> bool {
    exists|i: int| 0 <= i < ps.len() && bad_pair(#[trigger] ps[i].0, ps[i].1)
}

pub open spec fn mentions(ps: Seq<(Seq<char>, Seq<char>)>, name: Seq<char>) -> bool {
    exists|i: int| 0 <= i < ps.len() && eq_nocase(#[trigger] ps[i].0, name)
}

/// Removing every secret name.
pub open spec fn strip_ops() -> Seq<EnvSpec> {
    secret_names().map_values(|n: Seq<char>| EnvSpec::Remove(n))
}

pub open spec fn default_op(ps: Seq<(Seq<char>, Seq<char>)>, k: Seq<char>, v: Seq<char>) -> Seq<
    EnvSpec,
> {
    if mentions(ps, k) {
        Seq::empty()
    } else {
        seq![EnvSpec::Put(k, v)]
    }
}

/// The terminal defaults the request does not name itself.
pub open spec fn default_ops(ps: Seq<(Seq<char>, Seq<char>)>) -> Seq<EnvSpec> {
    default_op(ps, "TERM"@, "xterm-256color"@) + default_op(ps, "COLORTERM"@, "truecolor"@)
        + default_op(ps, "COLUMNS"@, "120"@) + default_op(ps, "LINES"@, "32"@)
}

/// The requested variables, secrets left out, in request order.
pub open spec fn extra_ops(ps: Seq<(Seq<char>, Seq<char>)>) -> Seq<EnvSpec>
    decreases ps.len(),
{
    if ps.len() == 0 {
        Seq::empty()
    } else {
        let last = ps.last();
        extra_ops(ps.drop_last()) + if secret_key(last.0) {
            Seq::empty()
        } else {
            seq![EnvSpec::Put(last.0, last.1)]
        }
    }
}

/// The environment changes for a child, or `None` when a requested name or
/// value is malformed.
pub open spec fn env_plan(extra: Option<Seq<(Seq<char>, Seq<char>)>>) -> Option<Seq<EnvSpec>> {
    match extra {
        None => Some(strip_ops() + default_ops(Seq::empty()) + strip_ops()),
        Some(ps) => if any_bad(ps) {
            None
        } else {
            Some(strip_ops() + default_ops(ps) + extra_ops(ps) + strip_ops())
        },
    }
}

fn push_strip(ops: &mut Vec<EnvOp>)
    ensures
        ops_view(final(ops)@) == ops_view(old(ops)@) + strip_ops(),
{
    let names = strip_env_keys();
    let ghost start = ops_view(ops@);
    let mut i: usize = 0;
    while i < names.len()
        invariant
            i <= 6,
            names@.len() == 6,
            forall|j: int| 0 <= j < 6 ==> (#[trigger] names@[j])@ == secret_names()[j],
            ops_view(ops@) == start + strip_ops().take(i as int),
        decreases 6 - i,
    {
        let ghost o = ops@;
        ops.push(EnvOp::Remove(names[i]));
        assert(ops_view(ops@) =~= ops_view(o).push(EnvSpec::Remove(secret_names()[i as int])));
        assert(strip_ops().take(i + 1) =~= strip_ops().take(i as int).push(
            EnvSpec::Remove(secret_names()[i as int]),
        ));
        i = i + 1;
    }
    assert(strip_ops().take(6) =~= strip_ops());
}

fn has_contains(s: &str, c: char) -> (b: bool)
    ensures
        b == s@.contains(c),
{
    let v = chars_of(s);
    let mut i: usize = 0;
    while i < v.len()
        invariant
            i <= v@.len(),
            v@ == s@,
            forall|j: int| 0 <= j < i ==> v@[j] != c,
        decreases v@.len() - i,
    {
        if v[i] == c {
            assert(v@[i as int] == c);
            return true;
        }
        i = i + 1;
    }
    false
}

fn mentions_name(extra: &Vec<(String, String)>, name: &str) -> (b: bool)
    ensures
        b == mentions(pairs(extra@), name@),
{
    let n = chars_of(name);
    let mut i: usize = 0;
    while i < extra.len()
        invariant
            i <= extra@.len(),
            n@ == name@,
            forall|j: int| 0 <= j < i ==> !eq_nocase(#[trigger] pairs(extra@)[j].0, name@),
        decreases extra@.len() - i,
    {
        let k = chars_of(extra[i].0.as_str());
        if eq_ignore_case(k.as_slice(), n.as_slice()) {
            assert(pairs(extra@)[i as int].0 == k@);
            return true;
        }
        i = i + 1;
    }
    false
}

fn push_default(ops: &mut Vec<EnvOp>, extra: Option<&Vec<(String, String)>>, k: &str, v: &str)
    ensures
        ops_view(final(ops)@) == ops_view(old(ops)@) + default_op(
            match extra {
                Some(e) => pairs(e@),
                None => Seq::empty(),
            },
            k@,
            v@,
        ),
{
    let overridden = match extra {
        Some(e) => mentions_name(e, k),
        None => false,
    };
    let ghost ps = match extra {
        Some(e) => pairs(e@),
        None => Seq::<(Seq<char>, Seq<char>)>::empty(),
    };
    if !overridden {
        let ghost o = ops@;
        ops.push(EnvOp::Put(k.to_owned(), v.to_owned()));
        assert(ops_view(ops@) =~= ops_view(o) + seq![EnvSpec::Put(k@, v@)]);
    } else {
        assert(ops_view(ops@) =~= ops_view(ops@) + Seq::<EnvSpec>::empty());
    }
}

/// The environment a child starts with: `env` with the changes applied in
/// order.
pub open spec fn apply_env(env: Map<Seq<char>, Seq<char>>, ops: Seq<EnvSpec>) -> Map<
    Seq<char>,
    Seq<char>,
>
    decreases ops.len(),
{
    if ops.len() == 0 {
        env
    } else {
        let e = apply_env(env, ops.drop_last());
        match ops.last() {
            EnvSpec::Remove(k) => e.remove(k),
            EnvSpec::Put(k, v) => e.insert(k, v),
        }
    }
}

/// No change in `ops` puts a value under a secret name.
pub open spec fn puts_no_secret(ops: Seq<EnvSpec>) -> bool {
    forall|i: int|
        0 <= i < ops.len() ==> (#[trigger] ops[i] matches EnvSpec::Put(k, _) ==> !secret_key(k))
}

proof fn lemma_apply_concat(env: Map<Seq<char>, Seq<char>>, a: Seq<EnvSpec>, b: Seq<EnvSpec>)
    ensures
        apply_env(env, a + b) == apply_env(apply_env(env, a), b),
    decreases b.len(),
{
    if b.len() == 0 {
        assert(a + b =~= a);
    } else {
        lemma_apply_concat(env, a, b.drop_last());
        assert((a + b).drop_last() =~= a + b.drop_last());
        assert((a + b).last() == b.last());
    }
}

proof fn lemma_strip_removes(env: Map<Seq<char>, Seq<char>>, n: int)
    requires
        0 <= n <= 6,
    ensures
        forall|i: int|
            0 <= i < n ==> !apply_env(env, strip_ops().take(n)).dom().contains(
                #[trigger] secret_names()[i],
            ),
    decreases n,
{
    if n > 0 {
        lemma_strip_removes(env, n - 1);
        let t = strip_ops().take(n);
        assert(t.drop_last() =~= strip_ops().take(n - 1));
        assert(t.last() == EnvSpec::Remove(secret_names()[n - 1]));
    }
}

proof fn lemma_secret_inherited(env: Map<Seq<char>, Seq<char>>, ops: Seq<EnvSpec>, k: Seq<char>)
    requires
        puts_no_secret(ops),
        secret_key(k),
        apply_env(env, ops).dom().contains(k),
    ensures
        env.dom().contains(k),
        apply_env(env, ops)[k] == env[k],
    decreases ops.len(),
{
    if ops.len() > 0 {
        let d = ops.drop_last();
        assert forall|i: int| 0 <= i < d.len() implies (#[trigger] d[i] matches EnvSpec::Put(
            q,
            _,
        ) ==> !secret_key(q)) by {
            assert(d[i] == ops[i]);
        }
        let last = ops[ops.len() - 1];
        match last {
            EnvSpec::Remove(r) => {
                assert(r != k);
            },
            EnvSpec::Put(q, _) => {
                assert(!secret_key(q));
                assert(q != k);
            },
        }
        lemma_secret_inherited(env, d, k);
    }
}

proof fn lemma_not_secret_initial(k: Seq<char>)
    requires
        k.len() > 0,
        lower_char(k[0]) != 'b',
    ensures
        !secret_key(k),
{
    reveal_strlit("BOX_TOKEN");
    reveal_strlit("BOX_HOST_TOKEN");
    reveal_strlit("BOX_VNC_PASSWORD");
    reveal_strlit("BOX_TOKEN_FILE");
    reveal_strlit("BOX_HOST_TOKEN_FILE");
    reveal_strlit("BOX_VNC_PASSWORD_FILE");
    assert forall|i: int| 0 <= i < 6 implies !eq_nocase(#[trigger] secret_names()[i], k) by {
        let n = secret_names()[i];
        assert(n[0] == 'B');
        assert(lower(n)[0] == lower_char(n[0]));
        assert(lower(k)[0] == lower_char(k[0]));
    }
}

proof fn lemma_plan_puts(ps: Seq<(Seq<char>, Seq<char>)>)
    ensures
        puts_no_secret(strip_ops()),
        puts_no_secret(default_ops(ps)),
        puts_no_secret(extra_ops(ps)),
    decreases ps.len(),
{
    reveal_strlit("TERM");
    reveal_strlit("COLORTERM");
    reveal_strlit("COLUMNS");
    reveal_strlit("LINES");
    lemma_not_secret_initial("TERM"@);
    lemma_not_secret_initial("COLORTERM"@);
    lemma_not_secret_initial("COLUMNS"@);
    lemma_not_secret_initial("LINES"@);
    let d = default_ops(ps);
    assert forall|i: int| 0 <= i < d.len() implies (#[trigger] d[i] matches EnvSpec::Put(k, _)
        ==> !secret_key(k)) by {
        let a = default_op(ps, "TERM"@, "xterm-256color"@);
        let b = default_op(ps, "COLORTERM"@, "truecolor"@);
        let c = default_op(ps, "COLUMNS"@, "120"@);
        let e = default_op(ps, "LINES"@, "32"@);
        assert(d == a + b + c + e);
        if i < a.len() {
            assert(d[i] == a[i]);
        } else if i < a.len() + b.len() {
            assert(d[i] == b[i - a.len()]);
        } else if i < a.len() + b.len() + c.len() {
            assert(d[i] == c[i - a.len() - b.len()]);
        } else {
            assert(d[i] == e[i - a.len() - b.len() - c.len()]);
        }
    }
    if ps.len() > 0 {
        lemma_plan_puts(ps.drop_last());
        let x = extra_ops(ps);
        let y = extra_ops(ps.drop_last());
        let last = ps.last();
        let z = if secret_key(last.0) {
            Seq::<EnvSpec>::empty()
        } else {
            seq![EnvSpec::Put(last.0, last.1)]
        };
        assert(x == y + z);
        assert forall|i: int| 0 <= i < x.len() implies (#[trigger] x[i] matches EnvSpec::Put(k, _)
            ==> !secret_key(k)) by {
            if i < y.len() {
                assert(x[i] == y[i]);
            } else {
                assert(x[i] == z[i - y.len()]);
            }
        }
    }
}

proof fn lemma_puts_concat(a: Seq<EnvSpec>, b: Seq<EnvSpec>)
    requires
        puts_no_secret(a),
        puts_no_secret(b),
    ensures
        puts_no_secret(a + b),
{
    assert forall|i: int| 0 <= i < (a + b).len() implies (#[trigger] (a + b)[i] matches EnvSpec::Put(
        k,
        _,
    ) ==> !secret_key(k)) by {
        if i < a.len() {
            assert((a + b)[i] == a[i]);
        } else {
            assert((a + b)[i] == b[i - a.len()]);
        }
    }
}

/// Whatever environment the daemon runs in, a child started with the
/// changes `child_env` plans has none of the secret names, and under a name
/// that is secret in any letter case it has at most what the daemon's own
/// environment held: no value from the request reaches it.
pub proof fn law_child_env_holds_no_secret(
    extra: Option<Seq<(Seq<char>, Seq<char>)>>,
    env: Map<Seq<char>, Seq<char>>,
)
    requires
        env_plan(extra) is Some,
    ensures
        forall|i: int|
            0 <= i < 6 ==> !apply_env(env, env_plan(extra)->Some_0).dom().contains(
                #[trigger] secret_names()[i],
            ),
        forall|k: Seq<char>|
            secret_key(k) && #[trigger] apply_env(env, env_plan(extra)->Some_0).dom().contains(k)
                ==> env.dom().contains(k) && apply_env(env, env_plan(extra)->Some_0)[k] == env[k],
{
    let ps = match extra {
        Some(p) => p,
        None => Seq::empty(),
    };
    let plan = env_plan(extra)->Some_0;
    lemma_plan_puts(ps);
    lemma_plan_puts(Seq::empty());
    let head = match extra {
        Some(p) => strip_ops() + default_ops(p) + extra_ops(p),
        None => strip_ops() + default_ops(Seq::empty()),
    };
    lemma_puts_concat(strip_ops(), default_ops(ps));
    lemma_puts_concat(strip_ops() + default_ops(ps), extra_ops(ps));
    lemma_puts_concat(head, strip_ops());
    assert(plan == head + strip_ops());
    lemma_apply_concat(env, head, strip_ops());
    lemma_strip_removes(apply_env(env, head), 6);
    assert(strip_ops().take(6) =~= strip_ops());
    assert forall|k: Seq<char>|
        secret_key(k) && #[trigger] apply_env(env, plan).dom().contains(k) implies env.dom().contains(
        k,
    ) && apply_env(env, plan)[k] == env[k] by {
        lemma_secret_inherited(env, plan, k);
    }
}

/// The environment changes for a child: secrets removed, the terminal
/// defaults the request does not override, the requested variables other
/// than secrets, and secrets removed again.
pub fn child_env(extra: Option<&Vec<(String, String)>>) -> (r: Result<Vec<EnvOp>, ApiError>)
    ensures
        match env_plan(
            match extra {
                Some(e) => Some(pairs(e@)),
                None => None,
            },
        ) {
            Some(plan) => r is Ok && ops_view(r->Ok_0@) == plan,
            None => r is Err && api_error(
                r->Err_0,
                400,
                "invalid_request"@,
                "invalid environment variable name or value"@,
            ),
        },
{
    if let Some(e) = extra {
        let mut i: usize = 0;
        while i < e.len()
            invariant
                i <= e@.len(),
                extra == Some(e),
                forall|j: int|
                    0 <= j < i ==> !bad_pair(#[trigger] pairs(e@)[j].0, pairs(e@)[j].1),
            decreases e@.len() - i,
        {
            let k = &e[i].0;
            let v = &e[i].1;
            assert(pairs(e@)[i as int] == (k@, v@));
            if k.as_str().is_empty() || has_contains(k.as_str(), '=') || has_contains(
                k.as_str(),
                '\0',
            ) || has_contains(v.as_str(), '\0') {
                assert(bad_pair(pairs(e@)[i as int].0, pairs(e@)[i as int].1));
                assert(any_bad(pairs(e@)));
                return Err(
                    ApiError::invalid_request(
                        "invalid environment variable name or value".to_owned(),
                    ),
                );
            }
            i = i + 1;
        }
    }
    let mut ops: Vec<EnvOp> = Vec::new();
    assert(ops_view(ops@) =~= Seq::<EnvSpec>::empty());
    push_strip(&mut ops);
    push_default(&mut ops, extra, "TERM", "xterm-256color");
    push_default(&mut ops, extra, "COLORTERM", "truecolor");
    push_default(&mut ops, extra, "COLUMNS", "120");
    push_default(&mut ops, extra, "LINES", "32");
    let ghost ps = match extra {
        Some(e) => pairs(e@),
        None => Seq::<(Seq<char>, Seq<char>)>::empty(),
    };
    assert(ops_view(ops@) =~= Seq::<EnvSpec>::empty() + strip_ops() + default_ops(ps));
    if let Some(e) = extra {
        let ghost base = ops_view(ops@);
        let mut i: usize = 0;
        assert(pairs(e@).take(0) =~= Seq::<(Seq<char>, Seq<char>)>::empty());
        assert(base + extra_ops(pairs(e@).take(0)) =~= base);
        while i < e.len()
            invariant
                i <= e@.len(),
                ops_view(ops@) == base + extra_ops(pairs(e@).take(i as int)),
            decreases e@.len() - i,
        {
            let k = &e[i].0;
            let v = &e[i].1;
            proof {
                assert(pairs(e@)[i as int] == (k@, v@));
                assert(pairs(e@).take(i + 1).drop_last() =~= pairs(e@).take(i as int));
                assert(pairs(e@).take(i + 1).last() == (k@, v@));
            }
            let ghost o = ops@;
            if !is_secret_key(k.as_str()) {
                ops.push(EnvOp::Put(k.clone(), v.clone()));
                assert(ops_view(ops@) =~= ops_view(o) + seq![EnvSpec::Put(k@, v@)]);
            } else {
                assert(ops_view(o) + Seq::<EnvSpec>::empty() =~= ops_view(o));
            }
            proof {
                assert(base + extra_ops(pairs(e@).take(i + 1)) =~= base + extra_ops(
                    pairs(e@).take(i as int),
                ) + (if secret_key(k@) {
                    Seq::<EnvSpec>::empty()
                } else {
                    seq![EnvSpec::Put(k@, v@)]
                }));
            }
            i = i + 1;
        }
        assert(pairs(e@).take(e@.len() as int) =~= pairs(e@));
    }
    let ghost mid = ops_view(ops@);
    push_strip(&mut ops);
    proof {
        match extra {
            Some(e) => {
                assert(!any_bad(pairs(e@)));
                assert(ops_view(ops@) =~= strip_ops() + default_ops(pairs(e@)) + extra_ops(
                    pairs(e@),
                ) + strip_ops());
            },
            None => {
                assert(ops_view(ops@) =~= strip_ops() + default_ops(Seq::empty()) + strip_ops());
            },
        }
    }
    Ok(ops)
}

} // verus!

verus! {

/// Output kept from one pipe: at most `max` bytes, and whether more came.
pub struct Capped {
    pub bytes: Vec<u8>,
    pub truncated: bool,
    pub max: usize,
    pub seen: Ghost<Seq<u8>>,
}

impl Capped {
    /// Everything the pipe produced so far.
    pub open spec fn produced(&self) -> Seq<u8> {
        self.seen@
    }

    pub open spec fn cap(&self) -> nat {
        self.max as nat
    }

    /// The kept bytes are the first `max` produced, and `truncated` says
    /// whether anything was produced past them.
    pub open spec fn wf(&self) -> bool {
        &&& self.produced().len() <= self.cap() ==> self.bytes@ == self.produced()
        &&& self.produced().len() > self.cap() ==> self.bytes@ == self.produced().take(
            self.cap() as int,
        )
        &&& self.truncated == (self.produced().len() > self.cap())
    }

    pub fn new(max: usize) -> (c: Self)
        ensures
            c.wf(),
            c.cap() == max,
            c.produced() == Seq::<u8>::empty(),
    {
        Capped { bytes: Vec::new(), truncated: false, max, seen: Ghost(Seq::empty()) }
    }

    /// Take in one chunk read from the pipe.
    pub fn absorb(&mut self, chunk: &[u8])
        requires
            old(self).wf(),
        ensures
            final(self).wf(),
            final(self).cap() == old(self).cap(),
            final(self).produced() == old(self).produced() + chunk@,
    {
        let ghost before = self.seen@;
        let n = chunk.len();
        if n == 0 {
            assert(before + chunk@ =~= before);
            return;
        }
        if self.bytes.len() >= self.max {
            self.truncated = true;
            self.seen = Ghost(before + chunk@);
            proof {
                assert(self.seen@.take(self.max as int) =~= before.take(self.max as int));
                if before.len() <= self.max {
                    assert(before.take(self.max as int) =~= before);
                }
            }
            return;
        }
        let room = self.max - self.bytes.len();
        let take = if n < room {
            n
        } else {
            room
        };
        let mut i: usize = 0;
        let ghost start = self.bytes@;
        assert(start =~= before);
        assert(!self.truncated);
        while i < take
            invariant
                i <= take <= n == chunk@.len(),
                self.bytes@ == start + chunk@.take(i as int),
                self.max == old(self).max,
                self.seen == old(self).seen,
                !self.truncated,
                start.len() + take <= self.max,
                take == n || start.len() + take == self.max,
            decreases take - i,
        {
            self.bytes.push(chunk[i]);
            i = i + 1;
            assert(self.bytes@ =~= start + chunk@.take(i as int));
        }
        if take < n {
            self.truncated = true;
        }
        self.seen = Ghost(before + chunk@);
        proof {
            if take == n {
                assert(chunk@.take(n as int) =~= chunk@);
            } else {
                assert((before + chunk@).take(self.max as int) =~= start + chunk@.take(
                    take as int,
                ));
            }
        }
    }
}

/// How much of each chunk a streamed pipe forwards: at most `max` bytes in
/// all.
pub struct StreamCap {
    pub forwarded: usize,
    pub truncated: bool,
    pub max: usize,
    pub seen: Ghost<nat>,
}

impl StreamCap {
    pub open spec fn produced(&self) -> nat {
        self.seen@
    }

    pub open spec fn cap(&self) -> nat {
        self.max as nat
    }

    pub open spec fn wf(&self) -> bool {
        &&& self.forwarded == if self.produced() < self.cap() {
            self.produced()
        } else {
            self.cap()
        }
        &&& self.truncated == (self.produced() > self.cap())
    }

    pub fn new(max: usize) -> (c: Self)
        ensures
            c.wf(),
            c.cap() == max,
            c.produced() == 0,
    {
        StreamCap { forwarded: 0, truncated: false, max, seen: Ghost(0) }
    }

    /// A chunk of `n` bytes was read: how many of them to forward.
    pub fn accept(&mut self, n: usize) -> (take: usize)
        requires
            old(self).wf(),
        ensures
            final(self).wf(),
            final(self).cap() == old(self).cap(),
            final(self).produced() == old(self).produced() + n,
            take <= n,
            final(self).forwarded == old(self).forwarded + take,
    {
        self.seen = Ghost((self.seen@ + n) as nat);
        if n == 0 {
            return 0;
        }
        if self.forwarded >= self.max {
            self.truncated = true;
            return 0;
        }
        let room = self.max - self.forwarded;
        let take = if n < room {
            n
        } else {
            room
        };
        self.forwarded = self.forwarded + take;
        if take < n {
            self.truncated = true;
        }
        take
    }
}

} // verus!

verus! {

/// Text of output bytes, invalid UTF-8 replaced by U+FFFD, as
/// `String::from_utf8_lossy` gives it.
pub uninterp spec fn lossy_text(bytes: Seq<u8>) -> Seq<char>;

/// `String::from_utf8_lossy`, owned. Valid UTF-8 comes back decoded as it
/// is.
#[verifier::external_body]
fn utf8_lossy(bytes: &[u8]) -> (s: String)
    ensures
        s@ == lossy_text(bytes@),
        vstd::utf8::valid_utf8(bytes@) ==> s@ == vstd::utf8::decode_utf8(bytes@),
{
    String::from_utf8_lossy(bytes).into_owned()
}

/// The signal that asks a process group to stop (`SIGTERM`).
#[verifier::external_body]
fn term_signal() -> (s: i32)
    ensures
        s == 15,
{
    libc::SIGTERM
}

/// The signal that stops a process group outright (`SIGKILL`).
#[verifier::external_body]
fn kill_signal() -> (s: i32)
    ensures
        s == 9,
{
    libc::SIGKILL
}

/// The response of a foreground exec once the child is done.
pub fn run_response(
    out: &Capped,
    err: &Capped,
    saw_eof: bool,
    timed_out: bool,
    exit_code: Option<i32>,
    duration_ms: u64,
    cwd: String,
    exec_id: String,
) -> (r: ExecResponse)
    ensures
        r.stdout@ == lossy_text(out.bytes@),
        r.stderr@ == lossy_text(err.bytes@),
        r.truncated == (out.truncated || err.truncated || !saw_eof),
        r.output_complete == saw_eof,
        r.exit_code == exit_code,
        r.timed_out == timed_out,
        r.duration_ms == duration_ms,
        r.cwd == cwd,
        r.exec_id == exec_id,
        !r.detached,
        r.status is None,
{
    ExecResponse {
        stdout: utf8_lossy(out.bytes.as_slice()),
        stderr: utf8_lossy(err.bytes.as_slice()),
        exit_code,
        timed_out,
        duration_ms,
        truncated: out.truncated || err.truncated || !saw_eof,
        output_complete: saw_eof,
        cwd,
        exec_id,
        detached: false,
        status: None,
    }
}

/// What a detached exec answers at once: still running.
pub fn detached_running(exec_id: String, cwd: String) -> (r: ExecResponse)
    ensures
        r.exec_id == exec_id,
        r.cwd == cwd,
        r.detached,
        r.status matches Some(s) && s@ == "running"@,
        r.stdout@.len() == 0 && r.stderr@.len() == 0,
        r.exit_code is None && !r.timed_out && !r.truncated && !r.output_complete,
        r.duration_ms == 0,
{
    ExecResponse {
        stdout: String::new(),
        stderr: String::new(),
        exit_code: None,
        timed_out: false,
        duration_ms: 0,
        truncated: false,
        output_complete: false,
        cwd,
        exec_id,
        detached: true,
        status: Some("running"),
    }
}

/// A detached exec remembered by id.
#[derive(Debug, Clone)]
pub struct DetachedJob {
    pub status: &'static str,
    pub result: Option<ExecResponse>,
}

/// The job recorded when a detached exec starts.
pub fn job_running() -> (j: DetachedJob)
    ensures
        j.status@ == "running"@,
        j.result is None,
{
    DetachedJob { status: "running", result: None }
}

/// The job recorded when a detached exec ends: its response marked
/// detached and done, or, when it could not run, an error response whose
/// stderr is the error's message.
pub fn job_finished(exec_id: String, outcome: Result<ExecResponse, ApiError>) -> (j: DetachedJob)
    ensures
        j.status@ == "done"@,
        j.result is Some,
        match outcome {
            Ok(resp) => {
                let r = j.result->Some_0;
                &&& r.detached
                &&& r.status matches Some(s) && s@ == "done"@
                &&& r.stdout == resp.stdout && r.stderr == resp.stderr
                &&& r.exit_code == resp.exit_code && r.timed_out == resp.timed_out
                &&& r.truncated == resp.truncated && r.output_complete == resp.output_complete
                &&& r.duration_ms == resp.duration_ms && r.cwd == resp.cwd && r.exec_id
                    == resp.exec_id
            },
            Err(e) => {
                let r = j.result->Some_0;
                &&& r.detached
                &&& r.status matches Some(s) && s@ == "error"@
                &&& r.stderr@ == e.message_of()
                &&& r.stdout@.len() == 0 && r.cwd@.len() == 0
                &&& r.exec_id == exec_id
                &&& r.exit_code is None && !r.timed_out && !r.truncated && !r.output_complete
                &&& r.duration_ms == 0
            },
        },
{
    match outcome {
        Ok(mut resp) => {
            resp.detached = true;
            resp.status = Some("done");
            DetachedJob { status: "done", result: Some(resp) }
        },
        Err(e) => DetachedJob {
            status: "done",
            result: Some(
                ExecResponse {
                    stdout: String::new(),
                    stderr: e.message(),
                    exit_code: None,
                    timed_out: false,
                    duration_ms: 0,
                    truncated: false,
                    output_complete: false,
                    cwd: String::new(),
                    exec_id,
                    detached: true,
                    status: Some("error"),
                },
            ),
        },
    }
}

/// `GET /v1/exec/{id}`: the finished result, or a detached placeholder
/// carrying the job's status; an unknown id is not found.
pub fn job_status(job: Option<&DetachedJob>, id: String) -> (r: Result<ExecResponse, ApiError>)
    ensures
        match job {
            None => r is Err && api_error(r->Err_0, 404, "not_found"@, "exec id not found"@),
            Some(j) => match j.result {
                Some(res) => r is Ok && r->Ok_0 == res,
                None => r is Ok && {
                    let o = r->Ok_0;
                    &&& o.exec_id == id
                    &&& o.detached
                    &&& o.status == Some(j.status)
                    &&& o.exit_code is None
                    &&& o.stdout@.len() == 0
                    &&& o.stderr@.len() == 0
                    &&& o.cwd@.len() == 0
                    &&& !o.timed_out
                    &&& o.duration_ms == 0
                    &&& !o.truncated
                    &&& !o.output_complete
                },
            },
        },
{
    match job {
        None => Err(ApiError::not_found("exec id not found".to_owned())),
        Some(j) => match &j.result {
            Some(res) => Ok(
                ExecResponse {
                    stdout: res.stdout.clone(),
                    stderr: res.stderr.clone(),
                    exit_code: res.exit_code,
                    timed_out: res.timed_out,
                    duration_ms: res.duration_ms,
                    truncated: res.truncated,
                    output_complete: res.output_complete,
                    cwd: res.cwd.clone(),
                    exec_id: res.exec_id.clone(),
                    detached: res.detached,
                    status: res.status,
                },
            ),
            None => Ok(
                ExecResponse {
                    stdout: String::new(),
                    stderr: String::new(),
                    exit_code: None,
                    timed_out: false,
                    duration_ms: 0,
                    truncated: false,
                    output_complete: false,
                    cwd: String::new(),
                    exec_id: id,
                    detached: true,
                    status: Some(j.status),
                },
            ),
        },
    }
}

/// `DELETE /v1/exec/{id}`: cancelled when a running group was signalled;
/// known but finished when only the job table has it; otherwise not found.
pub fn cancel_reply(signalled: bool, known: bool, exec_id: String) -> (r: Result<
    CancelResponse,
    ApiError,
>)
    ensures
        signalled ==> (r matches Ok(c) && c.cancelled && c.exec_id == exec_id),
        !signalled && known ==> (r matches Ok(c) && !c.cancelled && c.exec_id == exec_id),
        !signalled && !known ==> r is Err && api_error(
            r->Err_0,
            404,
            "not_found"@,
            "exec id not found"@,
        ),
{
    if signalled {
        return Ok(CancelResponse { exec_id, cancelled: true });
    }
    if known {
        return Ok(CancelResponse { exec_id, cancelled: false });
    }
    Err(ApiError::not_found("exec id not found".to_owned()))
}

/// Refusal when every exec slot is taken.
pub fn busy_error(max: usize) -> (e: ApiError)
    ensures
        api_error(e, 429, "busy"@, "too many concurrent execs (max "@ + dec_text(max as nat) + ")"@),
{
    let mut v: Vec<char> = Vec::new();
    extend_str(&mut v, "too many concurrent execs (max ");
    extend_str(&mut v, nat_string(max as u64).as_str());
    extend_str(&mut v, ")");
    ApiError::busy(string_of(v.as_slice()))
}

/// Where waiting on a child stands.
#[derive(Debug, Clone, Copy, PartialEq, Eq, Structural)]
pub enum WaitStage {
    /// Waiting out the exec's time limit.
    Running,
    /// The limit passed and the group was asked to stop; waiting out the
    /// grace period.
    Grace,
}

/// What a wait on the child reported.
pub enum WaitEvent {
    Exited(Option<i32>),
    Elapsed,
    Failed(String),
}

/// What to do next.
pub enum WaitAction {
    /// Send `signal` to the group and wait out the grace period.
    SignalAndWait(i32),
    /// Send `signal` to the group, kill and reap the child, and report a
    /// timeout with no exit code.
    KillAndReap(i32),
    /// The wait is over: whether it timed out, and the exit code.
    Finish(Result<(bool, Option<i32>), ApiError>),
}

/// One step of waiting with escalation: a child that exits in time is done;
/// one that outlives its limit gets `SIGTERM`, then after the grace period
/// `SIGKILL`; a failed wait is an I/O error.
pub fn wait_step(stage: WaitStage, ev: WaitEvent) -> (a: WaitAction)
    ensures
        match (stage, ev) {
            (_, WaitEvent::Failed(m)) => a matches WaitAction::Finish(Err(e)) && api_error(
                e,
                500,
                "io_error"@,
                m@,
            ),
            (WaitStage::Running, WaitEvent::Exited(c)) => a matches WaitAction::Finish(Ok((t, k)))
                && !t && k == c,
            (WaitStage::Grace, WaitEvent::Exited(c)) => a matches WaitAction::Finish(Ok((t, k)))
                && t && k == c,
            (WaitStage::Running, WaitEvent::Elapsed) => a matches WaitAction::SignalAndWait(s)
                && s == 15,
            (WaitStage::Grace, WaitEvent::Elapsed) => a matches WaitAction::KillAndReap(s) && s
                == 9,
        },
{
    match ev {
        WaitEvent::Failed(m) => WaitAction::Finish(Err(ApiError::io(m))),
        WaitEvent::Exited(c) => match stage {
            WaitStage::Running => WaitAction::Finish(Ok((false, c))),
            WaitStage::Grace => WaitAction::Finish(Ok((true, c))),
        },
        WaitEvent::Elapsed => match stage {
            WaitStage::Running => WaitAction::SignalAndWait(term_signal()),
            WaitStage::Grace => WaitAction::KillAndReap(kill_signal()),
        },
    }
}

} // verus!

verus! {

pub open spec fn job_done(j: DetachedJob) -> bool {
    j.status@ != "running"@
}

/// `s` without its first `k` finished jobs, in order.
pub open spec fn drop_done(s: Seq<(Seq<char>, DetachedJob)>, k: nat) -> Seq<(Seq<char>, DetachedJob)>
    decreases s.len(),
{
    if s.len() == 0 || k == 0 {
        s
    } else if job_done(s[0].1) {
        drop_done(s.drop_first(), (k - 1) as nat)
    } else {
        seq![s[0]] + drop_done(s.drop_first(), k)
    }
}

/// Pruning forgets only finished jobs: every running job survives, in
/// order, and at most `k` jobs go.
pub proof fn law_prune_keeps_running_jobs(s: Seq<(Seq<char>, DetachedJob)>, k: nat)
    ensures
        forall|i: int|
            0 <= i < s.len() && !job_done(#[trigger] s[i].1) ==> drop_done(s, k).contains(s[i]),
        drop_done(s, k).len() <= s.len(),
        drop_done(s, k).len() + k >= s.len(),
    decreases s.len(),
{
    if s.len() > 0 && k > 0 {
        let t = s.drop_first();
        if job_done(s[0].1) {
            law_prune_keeps_running_jobs(t, (k - 1) as nat);
            assert forall|i: int| 0 <= i < s.len() && !job_done(#[trigger] s[i].1) implies drop_done(
                s,
                k,
            ).contains(s[i]) by {
                assert(s[i] == t[i - 1]);
            }
        } else {
            law_prune_keeps_running_jobs(t, k);
            let d = drop_done(t, k);
            assert(drop_done(s, k) == seq![s[0]] + d);
            assert forall|i: int| 0 <= i < s.len() && !job_done(#[trigger] s[i].1) implies drop_done(
                s,
                k,
            ).contains(s[i]) by {
                if i == 0 {
                    assert(drop_done(s, k)[0] == s[0]);
                } else {
                    assert(s[i] == t[i - 1]);
                    let j = choose|j: int| 0 <= j < d.len() && d[j] == t[i - 1];
                    assert(drop_done(s, k)[j + 1] == d[j]);
                }
            }
        }
    }
}

/// Detached execs by id, in the order they were first recorded.
pub struct JobTable {
    entries: Vec<(String, DetachedJob)>,
}

pub open spec fn entry_view(e: (String, DetachedJob)) -> (Seq<char>, DetachedJob) {
    (e.0@, e.1)
}

impl JobTable {
    pub closed spec fn rows(&self) -> Seq<(Seq<char>, DetachedJob)> {
        self.entries@.map_values(|e: (String, DetachedJob)| entry_view(e))
    }

    /// No id is recorded twice.
    pub open spec fn wf(&self) -> bool {
        forall|i: int, j: int|
            0 <= i < j < self.rows().len() ==> #[trigger] self.rows()[i].0 != #[trigger] self.rows()[j].0
    }

    pub open spec fn lookup(&self, id: Seq<char>) -> Option<DetachedJob> {
        if exists|i: int| 0 <= i < self.rows().len() && #[trigger] self.rows()[i].0 == id {
            let i = choose|i: int| 0 <= i < self.rows().len() && #[trigger] self.rows()[i].0 == id;
            Some(self.rows()[i].1)
        } else {
            None
        }
    }

    pub fn new() -> (t: Self)
        ensures
            t.wf(),
            t.rows().len() == 0,
    {
        JobTable { entries: Vec::new() }
    }

    pub fn len(&self) -> (n: usize)
        ensures
            n == self.rows().len(),
    {
        self.entries.len()
    }

    fn position(&self, id: &str) -> (r: Option<usize>)
        ensures
            match r {
                Some(i) => i < self.rows().len() && self.rows()[i as int].0 == id@,
                None => forall|i: int| 0 <= i < self.rows().len() ==> self.rows()[i].0 != id@,
            },
    {
        let k = chars_of(id);
        let mut i: usize = 0;
        while i < self.entries.len()
            invariant
                i <= self.rows().len(),
                self.rows().len() == self.entries@.len(),
                k@ == id@,
                forall|j: int| 0 <= j < i ==> self.rows()[j].0 != id@,
            decreases self.entries@.len() - i,
        {
            let e = chars_of(self.entries[i].0.as_str());
            assert(self.rows()[i as int] == entry_view(self.entries@[i as int]));
            if crate::text::chars_eq(e.as_slice(), k.as_slice()) {
                return Some(i);
            }
            i = i + 1;
        }
        None
    }

    /// The job recorded under `id`.
    pub fn get(&self, id: &str) -> (r: Option<&DetachedJob>)
        requires
            self.wf(),
        ensures
            match r {
                Some(j) => self.lookup(id@) == Some(*j),
                None => self.lookup(id@) is None,
            },
    {
        match self.position(id) {
            Some(i) => {
                assert(self.rows()[i as int] == entry_view(self.entries@[i as int]));
                Some(&self.entries[i].1)
            },
            None => None,
        }
    }

    pub fn contains(&self, id: &str) -> (b: bool)
        requires
            self.wf(),
        ensures
            b == self.lookup(id@) is Some,
    {
        self.position(id).is_some()
    }

    /// Once the table holds `MAX_DETACHED_JOBS`, forget finished jobs, the
    /// oldest first, until it holds one fewer. Running jobs are never
    /// forgotten.
    pub fn prune(&mut self)
        requires
            old(self).wf(),
        ensures
            final(self).wf(),
            old(self).rows().len() < MAX_DETACHED_JOBS ==> final(self).rows() == old(self).rows(),
            old(self).rows().len() >= MAX_DETACHED_JOBS ==> final(self).rows() == drop_done(
                old(self).rows(),
                (old(self).rows().len() - (MAX_DETACHED_JOBS - 1)) as nat,
            ),
    {
        if self.entries.len() < MAX_DETACHED_JOBS {
            return;
        }
        let need: usize = self.entries.len() - (MAX_DETACHED_JOBS - 1);
        let ghost s = self.rows();
        let mut rest: Vec<(String, DetachedJob)> = Vec::new();
        std::mem::swap(&mut rest, &mut self.entries);
        let mut removed: usize = 0;
        let ghost mut i: int = 0;
        assert(s.skip(0) =~= s);
        assert(self.rows() =~= Seq::<(Seq<char>, DetachedJob)>::empty());
        while rest.len() > 0
            invariant
                0 <= i <= s.len(),
                removed <= need,
                rest@.map_values(|e: (String, DetachedJob)| entry_view(e)) == s.skip(i),
                drop_done(s, need as nat) == self.rows() + drop_done(s.skip(i), (need - removed) as nat),
                forall|a: int, b: int|
                    0 <= a < b < s.len() ==> #[trigger] s[a].0 != #[trigger] s[b].0,
                forall|a: int, b: int|
                    0 <= a < b < self.rows().len() ==> #[trigger] self.rows()[a].0 != #[trigger] self.rows()[b].0,
                forall|a: int, b: int|
                    0 <= a < self.rows().len() && i <= b < s.len() ==> #[trigger] self.rows()[a].0 != #[trigger] s[b].0,
            decreases rest@.len(),
        {
            let ghost sk = s.skip(i);
            let e = rest.remove(0);
            proof {
                assert(sk[0] == entry_view(e));
                assert(sk.drop_first() =~= s.skip(i + 1));
                assert(rest@.map_values(|e: (String, DetachedJob)| entry_view(e)) =~= s.skip(i + 1));
            }
            let st = chars_of(e.1.status);
            let running = chars_of("running");
            let done = !crate::text::chars_eq(st.as_slice(), running.as_slice());
            assert(done == job_done(s[i].1));
            proof {
                let r = (need - removed) as nat;
                if r == 0 {
                    assert(drop_done(sk, 0) == sk);
                    assert(drop_done(s.skip(i + 1), 0) == s.skip(i + 1));
                    assert(sk =~= seq![s[i]] + s.skip(i + 1));
                }
            }
            if done && removed < need {
                removed = removed + 1;
            } else {
                let ghost before = self.rows();
                self.entries.push(e);
                proof {
                    assert(self.rows() =~= before.push(s[i]));
                    assert(before.push(s[i]) + drop_done(s.skip(i + 1), (need - removed) as nat)
                        =~= before + (seq![s[i]] + drop_done(s.skip(i + 1), (need - removed) as nat)));
                    assert forall|a: int, b: int|
                        0 <= a < b < self.rows().len() implies #[trigger] self.rows()[a].0 != #[trigger] self.rows()[b].0 by {
                        if b == before.len() {
                            assert(self.rows()[b] == s[i]);
                        }
                    }
                    assert forall|a: int, b: int|
                        0 <= a < self.rows().len() && i + 1 <= b < s.len() implies #[trigger] self.rows()[a].0 != #[trigger] s[b].0 by {
                        if a == before.len() {
                            assert(self.rows()[a] == s[i]);
                        }
                    }
                }
            }
            proof {
                i = i + 1;
            }
        }
        assert(s.skip(i).len() == 0);
        assert(self.rows() + Seq::<(Seq<char>, DetachedJob)>::empty() =~= self.rows());
    }

    /// Record `job` under `id`, replacing what was there.
    pub fn insert(&mut self, id: String, job: DetachedJob)
        requires
            old(self).wf(),
        ensures
            final(self).wf(),
            final(self).lookup(id@) == Some(job),
            forall|k: Seq<char>| k != id@ ==> #[trigger] final(self).lookup(k) == old(self).lookup(k),
    {
        match self.position(id.as_str()) {
            Some(i) => {
                let ghost before = self.rows();
                let ghost idv = id@;
                self.entries.set(i, (id, job));
                proof {
                    assert(self.rows() =~= before.update(i as int, (idv, job)));
                    assert forall|k: Seq<char>| k != idv implies #[trigger] self.lookup(k)
                        == old(self).lookup(k) by {
                        if exists|j: int| 0 <= j < before.len() && #[trigger] before[j].0 == k {
                            let j = choose|j: int| 0 <= j < before.len() && #[trigger] before[j].0 == k;
                            assert(self.rows()[j].0 == k);
                        }
                        if exists|j: int| 0 <= j < self.rows().len() && #[trigger] self.rows()[j].0 == k {
                            let j = choose|j: int| 0 <= j < self.rows().len() && #[trigger] self.rows()[j].0 == k;
                            assert(before[j].0 == k);
                        }
                    }
                    assert(self.rows()[i as int].0 == idv);
                }
            },
            None => {
                let ghost before = self.rows();
                let ghost idv = id@;
                self.entries.push((id, job));
                proof {
                    assert(self.rows() =~= before.push((idv, job)));
                    assert(self.rows()[before.len() as int].0 == idv);
                    assert forall|k: Seq<char>| k != idv implies #[trigger] self.lookup(k)
                        == old(self).lookup(k) by {
                        if exists|j: int| 0 <= j < before.len() && #[trigger] before[j].0 == k {
                            let j = choose|j: int| 0 <= j < before.len() && #[trigger] before[j].0 == k;
                            assert(self.rows()[j].0 == k);
                        }
                        if exists|j: int| 0 <= j < self.rows().len() && #[trigger] self.rows()[j].0 == k {
                            let j = choose|j: int| 0 <= j < self.rows().len() && #[trigger] self.rows()[j].0 == k;
                            assert(j < before.len());
                            assert(before[j].0 == k);
                        }
                    }
                }
            },
        }
    }
}


/// How an actuator error is answered: computer use off or the display gone
/// is 503, a point off the display 400, a bad request 400, a failing tool
/// 502; the message is the error's sentence.
pub open spec fn cua_reply(e: crate::cua::CuaError) -> (u16, Seq<char>) {
    match e {
        crate::cua::CuaError::Disabled => (503, "cua_disabled"@),
        crate::cua::CuaError::DisplayDown(_) => (503, "display_unavailable"@),
        crate::cua::CuaError::OutOfRange(..) => (400, "out_of_range"@),
        crate::cua::CuaError::Invalid(_) => (400, "invalid_request"@),
        crate::cua::CuaError::Tool(_) => (502, "cua_backend"@),
    }
}

pub fn map_err(err: crate::cua::CuaError) -> (e: ApiError)
    ensures
        api_error(e, cua_reply(err).0, cua_reply(err).1, crate::cua::error_text(err)),
{
    let msg = err.message();
    match err {
        crate::cua::CuaError::Disabled => ApiError::new(503, "cua_disabled", msg),
        crate::cua::CuaError::DisplayDown(_) => ApiError::new(503, "display_unavailable", msg),
        crate::cua::CuaError::OutOfRange(..) => ApiError::new(400, "out_of_range", msg),
        crate::cua::CuaError::Invalid(_) => ApiError::invalid_request(msg),
        crate::cua::CuaError::Tool(_) => ApiError::new(502, "cua_backend", msg),
    }
}

/// The query of a screenshot request.
#[derive(Debug)]
pub struct ScreenshotQuery {
    pub format: Option<String>,
}

/// Some comma-separated entry of `Accept`, trimmed, is `image/png` in any
/// case or starts with `image/png;`.
pub open spec fn accepts_png(accept: Seq<char>) -> bool {
    exists|i: int|
        0 <= i < split(accept, CharClass::Is(',')).len() && ({
            let p = trim(#[trigger] split(accept, CharClass::Is(','))[i], CharClass::Whitespace);
            eq_nocase(p, "image/png"@) || has_prefix(p, "image/png;"@)
        })
}

/// Raw PNG rather than JSON: `format=png` decides, `format=json` refuses,
/// and otherwise the `Accept` header decides.
pub open spec fn png_wanted(format: Option<Seq<char>>, accept: Seq<char>) -> bool {
    match format {
        Some(f) => if eq_nocase(trim(f, CharClass::Whitespace), "png"@) {
            true
        } else if eq_nocase(trim(f, CharClass::Whitespace), "json"@) {
            false
        } else {
            accepts_png(accept)
        },
        None => accepts_png(accept),
    }
}

pub fn want_png(format: Option<&str>, accept: &str) -> (b: bool)
    ensures
        b == png_wanted(
            match format {
                Some(f) => Some(f@),
                None => None,
            },
            accept@,
        ),
{
    if let Some(f) = format {
        let t = trim_class(chars_of(f).as_slice(), CharClass::Whitespace);
        if eq_ignore_case(t.as_slice(), chars_of("png").as_slice()) {
            return true;
        }
        if eq_ignore_case(t.as_slice(), chars_of("json").as_slice()) {
            return false;
        }
    }
    let parts = split_class(chars_of(accept).as_slice(), CharClass::Is(','));
    let png = chars_of("image/png");
    let png_semi = chars_of("image/png;");
    let mut i: usize = 0;
    while i < parts.len()
        invariant
            i <= parts@.len(),
            parts.deep_view() == split(accept@, CharClass::Is(',')),
            png@ == "image/png"@,
            png_semi@ == "image/png;"@,
            match format {
                Some(f) => !eq_nocase(trim(f@, CharClass::Whitespace), "png"@) && !eq_nocase(
                    trim(f@, CharClass::Whitespace),
                    "json"@,
                ),
                None => true,
            },
            forall|j: int|
                0 <= j < i ==> !({
                    let p = trim(#[trigger] parts.deep_view()[j], CharClass::Whitespace);
                    eq_nocase(p, "image/png"@) || has_prefix(p, "image/png;"@)
                }),
        decreases parts@.len() - i,
    {
        assert(parts.deep_view()[i as int] == parts@[i as int]@);
        let t = trim_class(parts[i].as_slice(), CharClass::Whitespace);
        if eq_ignore_case(t.as_slice(), png.as_slice()) || starts_with(
            t.as_slice(),
            png_semi.as_slice(),
        ) {
            return true;
        }
        i = i + 1;
    }
    false
}

/// `GET /v1/busy`.
#[derive(Debug)]
pub struct BusyResponse {
    pub busy: bool,
    pub execs: ExecBusy,
    pub shutting_down: bool,
}

#[derive(Debug)]
pub struct ExecBusy {
    pub current: usize,
    pub max: usize,
}

#[derive(Debug)]
pub struct ShutdownResponse {
    pub ok: bool,
    pub service: &'static str,
}

#[derive(Debug)]
pub struct MetricsResponse {
    pub service: &'static str,
    pub uptime_ms: u64,
    pub execs: ExecMetrics,
    /// Descriptors the daemon has open, where the platform says.
    pub open_fds: Option<usize>,
}

#[derive(Debug)]
pub struct ExecMetrics {
    pub current: usize,
    pub max: usize,
    pub started: u64,
    /// Process groups of running execs that a cancel could still reach.
    pub child_groups: usize,
}

/// Busy when every exec slot is taken.
pub fn busy_response(current: usize, max: usize, shutting_down: bool) -> (r: BusyResponse)
    ensures
        r.busy == (current >= max),
        r.execs.current == current,
        r.execs.max == max,
        r.shutting_down == shutting_down,
{
    BusyResponse { busy: current >= max, execs: ExecBusy { current, max }, shutting_down }
}

} // verus!
