//! Command line of the stand-in agent service: where its one lease comes
//! from (given on the command line, or a signed store checked with a pinned
//! issuer key or key set), and the service floors. Arguments come in
//! `--flag value` pairs; a later pair for the same flag wins.
use vstd::prelude::*;
use crate::authz::Operation;
use crate::text::{
    opt_str_view, opt_text, parse_u64_text, string_views, split_on, split_text, str_eq, str_views, trim, trim_text, u64_value,
};

verus! {

/// The flags the service takes.
#[derive(Clone, Copy, Debug, PartialEq, Eq, Structural)]
pub enum Flag {
    Socket,
    Store,
    IssuerKey,
    IssuerKeys,
    Subject,
    Device,
    NotBefore,
    ExpiresAt,
    RevocationEpoch,
    TrustedTimeFloor,
    MinRevocationEpoch,
    Ops,
    Password,
}

/// Why the command line is refused.
#[derive(Debug)]
pub enum CliError {
    /// A flag is the last argument, with no value after it.
    MissingValue(String),
    UnknownArgument(String),
    /// A numeric flag's value is not an unsigned 64-bit decimal.
    InvalidNumber(Flag),
    MissingRequired(Flag),
    /// `--issuer-keys` and `--issuer-key` together.
    IssuerKeysExclusive,
    /// `--store` without `--issuer-keys` or `--issuer-key`.
    StoreNeedsIssuer,
    /// `--issuer-keys` or `--issuer-key` without `--store`.
    IssuerNeedsStore,
    /// A command-line lease argument in store mode: one lease source,
    /// never two. The service exits with status 2 on this one.
    MixedLeaseSource(Flag),
    UnknownOperation(String),
    NoOperations,
}

/// Where the lease comes from.
#[derive(Debug)]
pub enum LeaseSource {
    /// The lease given on the command line (unsigned).
    Cli,
    /// A signed-lease store verified with one pinned issuer key.
    Store { path: String, issuer_key: String },
    /// A signed-lease store verified with a pinned issuer key set.
    StoreWithKeySet { path: String, key_set: String },
}

/// The parsed command line. In store mode the lease fields are `None`; in
/// command-line mode they are all set.
#[derive(Debug)]
pub struct Args {
    pub socket: String,
    pub lease_source: LeaseSource,
    pub subject: Option<String>,
    pub device: Option<String>,
    pub not_before: Option<u64>,
    pub expires_at: Option<u64>,
    pub revocation_epoch: Option<u64>,
    pub trusted_time_floor: Option<u64>,
    pub minimum_revocation_epoch: Option<u64>,
    pub ops: Option<Vec<Operation>>,
    pub password: Option<String>,
}

/// The flag an argument names.
pub open spec fn flag_of(key: Seq<char>) -> Option<Flag> {
    if key == "--socket"@ {
        Some(Flag::Socket)
    } else if key == "--store"@ {
        Some(Flag::Store)
    } else if key == "--issuer-key"@ {
        Some(Flag::IssuerKey)
    } else if key == "--issuer-keys"@ {
        Some(Flag::IssuerKeys)
    } else if key == "--subject"@ {
        Some(Flag::Subject)
    } else if key == "--device"@ {
        Some(Flag::Device)
    } else if key == "--not-before"@ {
        Some(Flag::NotBefore)
    } else if key == "--expires-at"@ {
        Some(Flag::ExpiresAt)
    } else if key == "--revocation-epoch"@ {
        Some(Flag::RevocationEpoch)
    } else if key == "--trusted-time-floor"@ {
        Some(Flag::TrustedTimeFloor)
    } else if key == "--min-revocation-epoch"@ {
        Some(Flag::MinRevocationEpoch)
    } else if key == "--ops"@ {
        Some(Flag::Ops)
    } else if key == "--password"@ {
        Some(Flag::Password)
    } else {
        None
    }
}

/// Each flag text names the flag of that name: `--revocation-epoch` is
/// the lease's epoch and `--min-revocation-epoch` the service floor, and so
/// on for every flag.
pub proof fn lemma_flag_names()
    ensures
        flag_of("--socket"@) == Some(Flag::Socket),
        flag_of("--store"@) == Some(Flag::Store),
        flag_of("--issuer-key"@) == Some(Flag::IssuerKey),
        flag_of("--issuer-keys"@) == Some(Flag::IssuerKeys),
        flag_of("--subject"@) == Some(Flag::Subject),
        flag_of("--device"@) == Some(Flag::Device),
        flag_of("--not-before"@) == Some(Flag::NotBefore),
        flag_of("--expires-at"@) == Some(Flag::ExpiresAt),
        flag_of("--revocation-epoch"@) == Some(Flag::RevocationEpoch),
        flag_of("--trusted-time-floor"@) == Some(Flag::TrustedTimeFloor),
        flag_of("--min-revocation-epoch"@) == Some(Flag::MinRevocationEpoch),
        flag_of("--ops"@) == Some(Flag::Ops),
        flag_of("--password"@) == Some(Flag::Password),
{
    reveal_strlit("--socket");
    reveal_strlit("--store");
    reveal_strlit("--issuer-key");
    reveal_strlit("--issuer-keys");
    reveal_strlit("--subject");
    reveal_strlit("--device");
    reveal_strlit("--not-before");
    reveal_strlit("--expires-at");
    reveal_strlit("--revocation-epoch");
    reveal_strlit("--trusted-time-floor");
    reveal_strlit("--min-revocation-epoch");
    reveal_strlit("--ops");
    reveal_strlit("--password");
    assert("--store"@.len() != "--socket"@.len());
    assert("--issuer-key"@.len() != "--socket"@.len());
    assert("--issuer-key"@.len() != "--store"@.len());
    assert("--issuer-keys"@.len() != "--socket"@.len());
    assert("--issuer-keys"@.len() != "--store"@.len());
    assert("--issuer-keys"@.len() != "--issuer-key"@.len());
    assert("--subject"@.len() != "--socket"@.len());
    assert("--subject"@.len() != "--store"@.len());
    assert("--subject"@.len() != "--issuer-key"@.len());
    assert("--subject"@.len() != "--issuer-keys"@.len());
    assert("--device"@[2] != "--socket"@[2]);
    assert("--device"@.len() != "--store"@.len());
    assert("--device"@.len() != "--issuer-key"@.len());
    assert("--device"@.len() != "--issuer-keys"@.len());
    assert("--device"@.len() != "--subject"@.len());
    assert("--not-before"@.len() != "--socket"@.len());
    assert("--not-before"@.len() != "--store"@.len());
    assert("--not-before"@[2] != "--issuer-key"@[2]);
    assert("--not-before"@.len() != "--issuer-keys"@.len());
    assert("--not-before"@.len() != "--subject"@.len());
    assert("--not-before"@.len() != "--device"@.len());
    assert("--expires-at"@.len() != "--socket"@.len());
    assert("--expires-at"@.len() != "--store"@.len());
    assert("--expires-at"@[2] != "--issuer-key"@[2]);
    assert("--expires-at"@.len() != "--issuer-keys"@.len());
    assert("--expires-at"@.len() != "--subject"@.len());
    assert("--expires-at"@.len() != "--device"@.len());
    assert("--expires-at"@[2] != "--not-before"@[2]);
    assert("--revocation-epoch"@.len() != "--socket"@.len());
    assert("--revocation-epoch"@.len() != "--store"@.len());
    assert("--revocation-epoch"@.len() != "--issuer-key"@.len());
    assert("--revocation-epoch"@.len() != "--issuer-keys"@.len());
    assert("--revocation-epoch"@.len() != "--subject"@.len());
    assert("--revocation-epoch"@.len() != "--device"@.len());
    assert("--revocation-epoch"@.len() != "--not-before"@.len());
    assert("--revocation-epoch"@.len() != "--expires-at"@.len());
    assert("--trusted-time-floor"@.len() != "--socket"@.len());
    assert("--trusted-time-floor"@.len() != "--store"@.len());
    assert("--trusted-time-floor"@.len() != "--issuer-key"@.len());
    assert("--trusted-time-floor"@.len() != "--issuer-keys"@.len());
    assert("--trusted-time-floor"@.len() != "--subject"@.len());
    assert("--trusted-time-floor"@.len() != "--device"@.len());
    assert("--trusted-time-floor"@.len() != "--not-before"@.len());
    assert("--trusted-time-floor"@.len() != "--expires-at"@.len());
    assert("--trusted-time-floor"@.len() != "--revocation-epoch"@.len());
    assert("--min-revocation-epoch"@.len() != "--socket"@.len());
    assert("--min-revocation-epoch"@.len() != "--store"@.len());
    assert("--min-revocation-epoch"@.len() != "--issuer-key"@.len());
    assert("--min-revocation-epoch"@.len() != "--issuer-keys"@.len());
    assert("--min-revocation-epoch"@.len() != "--subject"@.len());
    assert("--min-revocation-epoch"@.len() != "--device"@.len());
    assert("--min-revocation-epoch"@.len() != "--not-before"@.len());
    assert("--min-revocation-epoch"@.len() != "--expires-at"@.len());
    assert("--min-revocation-epoch"@.len() != "--revocation-epoch"@.len());
    assert("--min-revocation-epoch"@.len() != "--trusted-time-floor"@.len());
    assert("--ops"@.len() != "--socket"@.len());
    assert("--ops"@.len() != "--store"@.len());
    assert("--ops"@.len() != "--issuer-key"@.len());
    assert("--ops"@.len() != "--issuer-keys"@.len());
    assert("--ops"@.len() != "--subject"@.len());
    assert("--ops"@.len() != "--device"@.len());
    assert("--ops"@.len() != "--not-before"@.len());
    assert("--ops"@.len() != "--expires-at"@.len());
    assert("--ops"@.len() != "--revocation-epoch"@.len());
    assert("--ops"@.len() != "--trusted-time-floor"@.len());
    assert("--ops"@.len() != "--min-revocation-epoch"@.len());
    assert("--password"@.len() != "--socket"@.len());
    assert("--password"@.len() != "--store"@.len());
    assert("--password"@.len() != "--issuer-key"@.len());
    assert("--password"@.len() != "--issuer-keys"@.len());
    assert("--password"@.len() != "--subject"@.len());
    assert("--password"@.len() != "--device"@.len());
    assert("--password"@.len() != "--not-before"@.len());
    assert("--password"@.len() != "--expires-at"@.len());
    assert("--password"@.len() != "--revocation-epoch"@.len());
    assert("--password"@.len() != "--trusted-time-floor"@.len());
    assert("--password"@.len() != "--min-revocation-epoch"@.len());
    assert("--password"@.len() != "--ops"@.len());
}

/// The flags whose value is a number.
pub open spec fn numeric(f: Flag) -> bool {
    f is NotBefore || f is ExpiresAt || f is RevocationEpoch || f is TrustedTimeFloor
        || f is MinRevocationEpoch
}

/// The number of `--flag value` pairs, counting an unfinished last one.
pub open spec fn pair_count(args: Seq<Seq<char>>) -> int {
    ((args.len() + 1) / 2) as int
}

/// What is wrong with pair `k`.
pub enum PairFault {
    MissingValue,
    Unknown,
    InvalidNumber(Flag),
}

pub open spec fn pair_fault(args: Seq<Seq<char>>, k: int) -> Option<PairFault> {
    if 2 * k + 1 >= args.len() {
        Some(PairFault::MissingValue)
    } else {
        match flag_of(args[2 * k]) {
            None => Some(PairFault::Unknown),
            Some(f) => if numeric(f) && u64_value(args[2 * k + 1]) is None {
                Some(PairFault::InvalidNumber(f))
            } else {
                None
            },
        }
    }
}

/// The first faulty pair at or after `k`.
pub open spec fn first_fault_from(args: Seq<Seq<char>>, k: int) -> Option<(int, PairFault)>
    decreases pair_count(args) - k,
{
    if k < 0 || k >= pair_count(args) {
        None
    } else {
        match pair_fault(args, k) {
            Some(f) => Some((k, f)),
            None => first_fault_from(args, k + 1),
        }
    }
}

/// The value of the last of the first `n` pairs that names `f`.
pub open spec fn last_value(args: Seq<Seq<char>>, f: Flag, n: int) -> Option<Seq<char>>
    decreases n,
{
    if n <= 0 {
        None
    } else if flag_of(args[2 * (n - 1)]) == Some(f) {
        Some(args[2 * (n - 1) + 1])
    } else {
        last_value(args, f, n - 1)
    }
}

/// The value the command line gives `f`.
pub open spec fn value_of(args: Seq<Seq<char>>, f: Flag) -> Option<Seq<char>> {
    last_value(args, f, pair_count(args))
}

/// The number the command line gives a numeric flag.
pub open spec fn number_of(args: Seq<Seq<char>>, f: Flag) -> Option<u64> {
    match value_of(args, f) {
        Some(v) => u64_value(v),
        None => None,
    }
}

/// The command-line lease arguments, in the order they are reported.
pub open spec fn cli_lease_flags() -> Seq<Flag> {
    seq![
        Flag::Subject,
        Flag::Device,
        Flag::NotBefore,
        Flag::ExpiresAt,
        Flag::RevocationEpoch,
        Flag::TrustedTimeFloor,
        Flag::MinRevocationEpoch,
        Flag::Ops,
    ]
}

/// The first of `flags` that `present` holds for.
pub open spec fn first_present(flags: Seq<Flag>, present: spec_fn(Flag) -> bool) -> Option<Flag>
    decreases flags.len(),
{
    if flags.len() == 0 {
        None
    } else if present(flags[0]) {
        Some(flags[0])
    } else {
        first_present(flags.drop_first(), present)
    }
}

/// The operation with a wire name.
pub open spec fn operation_named(name: Seq<char>) -> Option<Operation> {
    if name == "Login"@ {
        Some(Operation::Login)
    } else if name == "Unlock"@ {
        Some(Operation::Unlock)
    } else if name == "Elevate"@ {
        Some(Operation::Elevate)
    } else if name == "RemoteLogin"@ {
        Some(Operation::RemoteLogin)
    } else {
        None
    }
}

/// The operation names of a comma list: the trimmed pieces, empty ones
/// dropped.
pub open spec fn op_names(pieces: Seq<Seq<char>>) -> Seq<Seq<char>>
    decreases pieces.len(),
{
    if pieces.len() == 0 {
        Seq::empty()
    } else {
        let init = op_names(pieces.drop_last());
        let t = trim(pieces.last());
        if t.len() == 0 {
            init
        } else {
            init.push(t)
        }
    }
}

/// The first name that is no operation.
pub open spec fn first_unknown_op(names: Seq<Seq<char>>) -> Option<Seq<char>>
    decreases names.len(),
{
    if names.len() == 0 {
        None
    } else if operation_named(names[0]) is None {
        Some(names[0])
    } else {
        first_unknown_op(names.drop_first())
    }
}

/// The error the command line is refused with, by its content.
pub enum CliFault {
    MissingValue(Seq<char>),
    UnknownArgument(Seq<char>),
    InvalidNumber(Flag),
    MissingRequired(Flag),
    IssuerKeysExclusive,
    StoreNeedsIssuer,
    IssuerNeedsStore,
    MixedLeaseSource(Flag),
    UnknownOperation(Seq<char>),
    NoOperations,
}

pub open spec fn fault_of(e: CliError) -> CliFault {
    match e {
        CliError::MissingValue(s) => CliFault::MissingValue(s@),
        CliError::UnknownArgument(s) => CliFault::UnknownArgument(s@),
        CliError::InvalidNumber(f) => CliFault::InvalidNumber(f),
        CliError::MissingRequired(f) => CliFault::MissingRequired(f),
        CliError::IssuerKeysExclusive => CliFault::IssuerKeysExclusive,
        CliError::StoreNeedsIssuer => CliFault::StoreNeedsIssuer,
        CliError::IssuerNeedsStore => CliFault::IssuerNeedsStore,
        CliError::MixedLeaseSource(f) => CliFault::MixedLeaseSource(f),
        CliError::UnknownOperation(s) => CliFault::UnknownOperation(s@),
        CliError::NoOperations => CliFault::NoOperations,
    }
}

/// What `parse_ops` gives for a comma list.
pub open spec fn ops_outcome(list: Seq<char>) -> Result<Seq<Operation>, CliFault> {
    let names = op_names(split_on(list, ','));
    match first_unknown_op(names) {
        Some(name) => Err(CliFault::UnknownOperation(name)),
        None => if names.len() == 0 {
            Err(CliFault::NoOperations)
        } else {
            Ok(names.map_values(|n: Seq<char>| operation_named(n)->0))
        },
    }
}

/// The content of a lease source.
pub enum SourceView {
    Cli,
    Store { path: Seq<char>, issuer_key: Seq<char> },
    StoreWithKeySet { path: Seq<char>, key_set: Seq<char> },
}

/// The content of parsed arguments.
pub struct ArgsView {
    pub socket: Seq<char>,
    pub source: SourceView,
    pub subject: Option<Seq<char>>,
    pub device: Option<Seq<char>>,
    pub not_before: Option<u64>,
    pub expires_at: Option<u64>,
    pub revocation_epoch: Option<u64>,
    pub trusted_time_floor: Option<u64>,
    pub minimum_revocation_epoch: Option<u64>,
    pub ops: Option<Seq<Operation>>,
    pub password: Option<Seq<char>>,
}

pub open spec fn args_view(a: Args) -> ArgsView {
    ArgsView {
        socket: a.socket@,
        source: match a.lease_source {
            LeaseSource::Cli => SourceView::Cli,
            LeaseSource::Store { path, issuer_key } => SourceView::Store {
                path: path@,
                issuer_key: issuer_key@,
            },
            LeaseSource::StoreWithKeySet { path, key_set } => SourceView::StoreWithKeySet {
                path: path@,
                key_set: key_set@,
            },
        },
        subject: opt_text(a.subject),
        device: opt_text(a.device),
        not_before: a.not_before,
        expires_at: a.expires_at,
        revocation_epoch: a.revocation_epoch,
        trusted_time_floor: a.trusted_time_floor,
        minimum_revocation_epoch: a.minimum_revocation_epoch,
        ops: match a.ops {
            Some(v) => Some(v@),
            None => None,
        },
        password: opt_text(a.password),
    }
}

/// Store mode: only the socket, the source and the password are set.
pub open spec fn store_args(args: Seq<Seq<char>>, source: SourceView) -> ArgsView {
    ArgsView {
        socket: value_of(args, Flag::Socket)->0,
        source,
        subject: None,
        device: None,
        not_before: None,
        expires_at: None,
        revocation_epoch: None,
        trusted_time_floor: None,
        minimum_revocation_epoch: None,
        ops: None,
        password: value_of(args, Flag::Password),
    }
}

/// The required command-line lease arguments, in the order they are
/// checked.
pub open spec fn required_cli_flags() -> Seq<Flag> {
    cli_lease_flags()
}

/// The outcome of parsing a command line whose pairs are all well formed.
pub open spec fn mode_outcome(args: Seq<Seq<char>>) -> Result<ArgsView, CliFault> {
    let present = |f: Flag| value_of(args, f) is Some;
    if value_of(args, Flag::Socket) is None {
        Err(CliFault::MissingRequired(Flag::Socket))
    } else if value_of(args, Flag::IssuerKeys) is Some && value_of(args, Flag::IssuerKey) is Some {
        Err(CliFault::IssuerKeysExclusive)
    } else if value_of(args, Flag::Store) is Some {
        if value_of(args, Flag::IssuerKeys) is None && value_of(args, Flag::IssuerKey) is None {
            Err(CliFault::StoreNeedsIssuer)
        } else if first_present(cli_lease_flags(), present) is Some {
            Err(CliFault::MixedLeaseSource(first_present(cli_lease_flags(), present)->0))
        } else if value_of(args, Flag::IssuerKeys) is Some {
            Ok(
                store_args(
                    args,
                    SourceView::StoreWithKeySet {
                        path: value_of(args, Flag::Store)->0,
                        key_set: value_of(args, Flag::IssuerKeys)->0,
                    },
                ),
            )
        } else {
            Ok(
                store_args(
                    args,
                    SourceView::Store {
                        path: value_of(args, Flag::Store)->0,
                        issuer_key: value_of(args, Flag::IssuerKey)->0,
                    },
                ),
            )
        }
    } else if value_of(args, Flag::IssuerKeys) is Some || value_of(args, Flag::IssuerKey) is Some {
        Err(CliFault::IssuerNeedsStore)
    } else {
        let missing = |f: Flag| value_of(args, f) is None;
        if first_present(required_cli_flags(), missing) is Some {
            Err(CliFault::MissingRequired(first_present(required_cli_flags(), missing)->0))
        } else {
            match ops_outcome(value_of(args, Flag::Ops)->0) {
                Err(e) => Err(e),
                Ok(ops) => Ok(
                    ArgsView {
                        socket: value_of(args, Flag::Socket)->0,
                        source: SourceView::Cli,
                        subject: value_of(args, Flag::Subject),
                        device: value_of(args, Flag::Device),
                        not_before: number_of(args, Flag::NotBefore),
                        expires_at: number_of(args, Flag::ExpiresAt),
                        revocation_epoch: number_of(args, Flag::RevocationEpoch),
                        trusted_time_floor: number_of(args, Flag::TrustedTimeFloor),
                        minimum_revocation_epoch: number_of(args, Flag::MinRevocationEpoch),
                        ops: Some(ops),
                        password: value_of(args, Flag::Password),
                    },
                ),
            }
        }
    }
}

/// A command line that parses in command-line mode gives each lease field
/// the value after that field's own flag (its last occurrence): the
/// subject after `--subject`, the epoch after `--revocation-epoch`, the
/// floor after `--min-revocation-epoch`, and so on.
pub proof fn lemma_cli_fields_from_their_flags(args: Seq<Seq<char>>)
    ensures
        match parse_outcome(args) {
            Err(_) => true,
            Ok(a) => a.source is Cli ==> {
            &&& a.socket == value_of(args, Flag::Socket)->0
            &&& a.subject == value_of(args, Flag::Subject)
            &&& a.device == value_of(args, Flag::Device)
            &&& a.not_before == number_of(args, Flag::NotBefore)
            &&& a.expires_at == number_of(args, Flag::ExpiresAt)
            &&& a.revocation_epoch == number_of(args, Flag::RevocationEpoch)
            &&& a.trusted_time_floor == number_of(args, Flag::TrustedTimeFloor)
            &&& a.minimum_revocation_epoch == number_of(args, Flag::MinRevocationEpoch)
            &&& a.password == value_of(args, Flag::Password)
        },
        },
{
}

/// The value the command line gives a flag is the one after the last pair
/// whose key names it.
pub proof fn lemma_value_after_last_flag(args: Seq<Seq<char>>, f: Flag, k: int)
    requires
        0 <= k,
        2 * k + 1 < args.len(),
        flag_of(args[2 * k]) == Some(f),
        forall|j: int| k < j < pair_count(args) ==> flag_of(#[trigger] args[2 * j]) != Some(f),
    ensures
        value_of(args, f) == Some(args[2 * k + 1]),
{
    lemma_last_value_at(args, f, k, pair_count(args));
}

proof fn lemma_last_value_at(args: Seq<Seq<char>>, f: Flag, k: int, n: int)
    requires
        0 <= k < n,
        flag_of(args[2 * k]) == Some(f),
        forall|j: int| k < j < n ==> flag_of(#[trigger] args[2 * j]) != Some(f),
    ensures
        last_value(args, f, n) == Some(args[2 * k + 1]),
    decreases n,
{
    if n - 1 > k {
        assert(flag_of(args[2 * (n - 1)]) != Some(f));
        lemma_last_value_at(args, f, k, n - 1);
    }
}

/// The outcome of parsing a command line.
pub open spec fn parse_outcome(args: Seq<Seq<char>>) -> Result<ArgsView, CliFault> {
    match first_fault_from(args, 0) {
        Some((k, PairFault::MissingValue)) => Err(CliFault::MissingValue(args[2 * k])),
        Some((k, PairFault::Unknown)) => Err(CliFault::UnknownArgument(args[2 * k])),
        Some((k, PairFault::InvalidNumber(f))) => Err(CliFault::InvalidNumber(f)),
        None => mode_outcome(args),
    }
}


/// The flag an argument names.
fn flag_named(key: &str) -> (r: Option<Flag>)
    ensures
        r == flag_of(key@),
{
    if str_eq(key, "--socket") {
        Some(Flag::Socket)
    } else if str_eq(key, "--store") {
        Some(Flag::Store)
    } else if str_eq(key, "--issuer-key") {
        Some(Flag::IssuerKey)
    } else if str_eq(key, "--issuer-keys") {
        Some(Flag::IssuerKeys)
    } else if str_eq(key, "--subject") {
        Some(Flag::Subject)
    } else if str_eq(key, "--device") {
        Some(Flag::Device)
    } else if str_eq(key, "--not-before") {
        Some(Flag::NotBefore)
    } else if str_eq(key, "--expires-at") {
        Some(Flag::ExpiresAt)
    } else if str_eq(key, "--revocation-epoch") {
        Some(Flag::RevocationEpoch)
    } else if str_eq(key, "--trusted-time-floor") {
        Some(Flag::TrustedTimeFloor)
    } else if str_eq(key, "--min-revocation-epoch") {
        Some(Flag::MinRevocationEpoch)
    } else if str_eq(key, "--ops") {
        Some(Flag::Ops)
    } else if str_eq(key, "--password") {
        Some(Flag::Password)
    } else {
        None
    }
}

fn is_numeric(f: Flag) -> (r: bool)
    ensures
        r == numeric(f),
{
    match f {
        Flag::NotBefore | Flag::ExpiresAt | Flag::RevocationEpoch | Flag::TrustedTimeFloor
        | Flag::MinRevocationEpoch => true,
        _ => false,
    }
}

/// Where a flag's value is kept while scanning.
pub open spec fn flag_index(f: Flag) -> int {
    match f {
        Flag::Socket => 0,
        Flag::Store => 1,
        Flag::IssuerKey => 2,
        Flag::IssuerKeys => 3,
        Flag::Subject => 4,
        Flag::Device => 5,
        Flag::NotBefore => 6,
        Flag::ExpiresAt => 7,
        Flag::RevocationEpoch => 8,
        Flag::TrustedTimeFloor => 9,
        Flag::MinRevocationEpoch => 10,
        Flag::Ops => 11,
        Flag::Password => 12,
    }
}

fn flag_slot(f: Flag) -> (r: usize)
    ensures
        r == flag_index(f),
{
    match f {
        Flag::Socket => 0,
        Flag::Store => 1,
        Flag::IssuerKey => 2,
        Flag::IssuerKeys => 3,
        Flag::Subject => 4,
        Flag::Device => 5,
        Flag::NotBefore => 6,
        Flag::ExpiresAt => 7,
        Flag::RevocationEpoch => 8,
        Flag::TrustedTimeFloor => 9,
        Flag::MinRevocationEpoch => 10,
        Flag::Ops => 11,
        Flag::Password => 12,
    }
}

/// Parse a numeric flag's value.
pub fn parse_u64(value: &str, flag: Flag) -> (r: Result<u64, CliError>)
    ensures
        r is Ok <==> u64_value(value@) is Some,
        r matches Ok(n) ==> u64_value(value@) == Some(n),
        r matches Err(e) ==> fault_of(e) == CliFault::InvalidNumber(flag),
{
    match parse_u64_text(value) {
        Some(n) => Ok(n),
        None => Err(CliError::InvalidNumber(flag)),
    }
}

/// The operation with a wire name.
fn operation_by_name(name: &str) -> (r: Option<Operation>)
    ensures
        r == operation_named(name@),
{
    if str_eq(name, "Login") {
        Some(Operation::Login)
    } else if str_eq(name, "Unlock") {
        Some(Operation::Unlock)
    } else if str_eq(name, "Elevate") {
        Some(Operation::Elevate)
    } else if str_eq(name, "RemoteLogin") {
        Some(Operation::RemoteLogin)
    } else {
        None
    }
}

proof fn lemma_op_names_append(a: Seq<Seq<char>>, b: Seq<Seq<char>>)
    ensures
        op_names(a + b) == op_names(a) + op_names(b),
    decreases b.len(),
{
    if b.len() == 0 {
        assert(a + b =~= a);
        assert(op_names(a) + op_names(b) =~= op_names(a));
    } else {
        lemma_op_names_append(a, b.drop_last());
        assert((a + b).drop_last() =~= a + b.drop_last());
        assert((a + b).last() == b.last());
        let t = trim(b.last());
        if t.len() != 0 {
            assert(op_names(a) + op_names(b.drop_last()).push(t) =~= (op_names(a) + op_names(
                b.drop_last(),
            )).push(t));
        }
    }
}

proof fn lemma_first_unknown_append(a: Seq<Seq<char>>, b: Seq<Seq<char>>)
    ensures
        first_unknown_op(a + b) == match first_unknown_op(a) {
            Some(n) => Some(n),
            None => first_unknown_op(b),
        },
    decreases a.len(),
{
    if a.len() == 0 {
        assert(a + b =~= b);
    } else {
        lemma_first_unknown_append(a.drop_first(), b);
        assert((a + b).drop_first() =~= a.drop_first() + b);
        assert((a + b)[0] == a[0]);
    }
}

/// Parse a comma list of operation names: pieces are trimmed, empty ones
/// skipped; an unknown name or an empty list is refused.
pub fn parse_ops(list: &str) -> (r: Result<Vec<Operation>, CliError>)
    ensures
        match ops_outcome(list@) {
            Ok(ops) => r matches Ok(v) && v@ == ops,
            Err(f) => r matches Err(e) && fault_of(e) == f,
        },
{
    let pieces = split_text(list, ',');
    let ghost all = str_views(pieces@);
    let mut ops: Vec<Operation> = Vec::new();
    let mut i: usize = 0;
    while i < pieces.len()
        invariant
            all == str_views(pieces@),
            all == split_on(list@, ','),
            i <= all.len(),
            first_unknown_op(op_names(all.subrange(0, i as int))) is None,
            ops@ == op_names(all.subrange(0, i as int)).map_values(
                |n: Seq<char>| operation_named(n)->0,
            ),
        decreases all.len() - i,
    {
        let ghost before = op_names(all.subrange(0, i as int));
        proof {
            assert(all.subrange(0, i + 1).drop_last() =~= all.subrange(0, i as int));
            assert(all.subrange(0, i + 1).last() == pieces@[i as int]@);
        }
        let name = trim_text(pieces[i]);
        if !name.is_empty() {
            match operation_by_name(name) {
                None => {
                    proof {
                        let head = all.subrange(0, i + 1);
                        let tail = all.subrange(i + 1, all.len() as int);
                        assert(head + tail =~= all);
                        lemma_op_names_append(head, tail);
                        lemma_first_unknown_append(before, seq![name@]);
                        assert(op_names(head) =~= before + seq![name@]);
                        lemma_first_unknown_append(op_names(head), op_names(tail));
                        reveal_with_fuel(first_unknown_op, 2);
                    }
                    return Err(CliError::UnknownOperation(name.to_owned()));
                },
                Some(op) => {
                    ops.push(op);
                    proof {
                        lemma_first_unknown_append(before, seq![name@]);
                        assert(before.push(name@) =~= before + seq![name@]);
                        reveal_with_fuel(first_unknown_op, 2);
                        assert(before.push(name@).map_values(|n: Seq<char>| operation_named(n)->0)
                            =~= before.map_values(|n: Seq<char>| operation_named(n)->0).push(op));
                    }
                },
            }
        }
        i = i + 1;
    }
    assert(all.subrange(0, all.len() as int) =~= all);
    if ops.len() == 0 {
        return Err(CliError::NoOperations);
    }
    Ok(ops)
}

/// The last value of a numeric flag among well-formed pairs is a number.
proof fn lemma_numeric_value_parses(args: Seq<Seq<char>>, f: Flag, n: int)
    requires
        numeric(f),
        0 <= n <= pair_count(args),
        forall|m: int| 0 <= m < n ==> pair_fault(args, m) is None,
    ensures
        last_value(args, f, n) matches Some(v) ==> u64_value(v) is Some,
    decreases n,
{
    if n > 0 {
        lemma_numeric_value_parses(args, f, n - 1);
        assert(pair_fault(args, n - 1) is None);
    }
}

/// One lease source, never two: a command line that parses in store mode
/// carries no command-line lease field, and one in command-line mode
/// carries every one of them.
pub proof fn lemma_one_lease_source(args: Seq<Seq<char>>)
    ensures
        parse_outcome(args) matches Ok(a) ==> (a.source is Cli ==> a.subject is Some && a.device is Some
            && a.not_before is Some && a.expires_at is Some && a.revocation_epoch is Some
            && a.trusted_time_floor is Some && a.minimum_revocation_epoch is Some && a.ops is Some),
        parse_outcome(args) matches Ok(a) ==> (!(a.source is Cli) ==> a.subject is None && a.device
            is None && a.not_before is None && a.expires_at is None && a.revocation_epoch is None
            && a.trusted_time_floor is None && a.minimum_revocation_epoch is None && a.ops is None),
{
    reveal_with_fuel(first_present, 9);
    if first_fault_from(args, 0) is None {
        assert forall|m: int| 0 <= m < pair_count(args) implies pair_fault(args, m) is None by {
            if pair_fault(args, m) is Some {
                lemma_fault_found(args, 0, m);
            }
        }
        lemma_numeric_value_parses(args, Flag::NotBefore, pair_count(args));
        lemma_numeric_value_parses(args, Flag::ExpiresAt, pair_count(args));
        lemma_numeric_value_parses(args, Flag::RevocationEpoch, pair_count(args));
        lemma_numeric_value_parses(args, Flag::TrustedTimeFloor, pair_count(args));
        lemma_numeric_value_parses(args, Flag::MinRevocationEpoch, pair_count(args));
    }
}

/// A faulty pair at or after `j` is found from `j`.
proof fn lemma_fault_found(args: Seq<Seq<char>>, j: int, m: int)
    requires
        0 <= j <= m < pair_count(args),
        pair_fault(args, m) is Some,
    ensures
        first_fault_from(args, j) is Some,
    decreases m - j,
{
    if pair_fault(args, j) is None {
        lemma_fault_found(args, j + 1, m);
    }
}

proof fn lemma_first_fault_at(args: Seq<Seq<char>>, j: int, k: int)
    requires
        0 <= j <= k < pair_count(args),
        pair_fault(args, k) is Some,
        forall|m: int| j <= m < k ==> pair_fault(args, m) is None,
    ensures
        first_fault_from(args, j) == Some((k, pair_fault(args, k)->0)),
    decreases k - j,
{
    if j < k {
        lemma_first_fault_at(args, j + 1, k);
    }
}

proof fn lemma_no_fault_from(args: Seq<Seq<char>>, j: int)
    requires
        0 <= j,
        forall|m: int| j <= m < pair_count(args) ==> pair_fault(args, m) is None,
    ensures
        first_fault_from(args, j) is None,
    decreases pair_count(args) - j,
{
    if j < pair_count(args) {
        lemma_no_fault_from(args, j + 1);
    }
}

/// The value kept for `f`.
fn kept<'a>(values: &Vec<Option<&'a str>>, f: Flag) -> (r: Option<&'a str>)
    requires
        values@.len() == 13,
    ensures
        r == values@[flag_index(f)],
{
    values[flag_slot(f)]
}

/// Command-line lease arguments are refused in store mode; the first one
/// present, in the order subject, device, not-before, expires-at,
/// revocation-epoch, trusted-time-floor, min-revocation-epoch, ops, is
/// reported.
pub fn reject_mixed_cli_lease_args(values: &Vec<Option<&str>>) -> (r: Result<(), CliError>)
    requires
        values@.len() == 13,
    ensures
        match first_present(cli_lease_flags(), |f: Flag| values@[flag_index(f)] is Some) {
            Some(f) => r matches Err(e) && fault_of(e) == CliFault::MixedLeaseSource(f),
            None => r is Ok,
        },
{
    proof {
        reveal_with_fuel(first_present, 9);
    }
    let order = [
        Flag::Subject,
        Flag::Device,
        Flag::NotBefore,
        Flag::ExpiresAt,
        Flag::RevocationEpoch,
        Flag::TrustedTimeFloor,
        Flag::MinRevocationEpoch,
        Flag::Ops,
    ];
    assert(order@ == cli_lease_flags());
    let ghost present = |f: Flag| values@[flag_index(f)] is Some;
    let mut i: usize = 0;
    while i < 8
        invariant
            order@ == cli_lease_flags(),
            values@.len() == 13,
            present == (|f: Flag| values@[flag_index(f)] is Some),
            i <= 8,
            first_present(cli_lease_flags(), present) == first_present(
                cli_lease_flags().subrange(i as int, 8),
                present,
            ),
        decreases 8 - i,
    {
        let f = order[i];
        let ghost rest = cli_lease_flags().subrange(i as int, 8);
        assert(rest[0] == f);
        assert(rest.drop_first() =~= cli_lease_flags().subrange(i + 1, 8));
        if kept(values, f).is_some() {
            return Err(CliError::MixedLeaseSource(f));
        }
        i = i + 1;
    }
    Ok(())
}

fn owned(s: &str) -> (r: String)
    ensures
        r@ == s@,
{
    s.to_owned()
}

fn owned_opt(o: Option<&str>) -> (r: Option<String>)
    ensures
        opt_text(r) == opt_str_view(o),
{
    match o {
        Some(s) => Some(s.to_owned()),
        None => None,
    }
}

/// Parse the service's command line (the arguments after the program name).
pub fn parse(args: &Vec<String>) -> (r: Result<Args, CliError>)
    ensures
        match parse_outcome(string_views(args@)) {
            Ok(a) => r matches Ok(parsed) && args_view(parsed) == a,
            Err(f) => r matches Err(e) && fault_of(e) == f,
        },
{
    let ghost argv = string_views(args@);
    let mut values: Vec<Option<&str>> = Vec::new();
    let mut n: usize = 0;
    while n < 13
        invariant
            n <= 13,
            values@.len() == n,
            forall|j: int| 0 <= j < n ==> values@[j] is None,
        decreases 13 - n,
    {
        values.push(None);
        n = n + 1;
    }
    let mut i: usize = 0;
    while i < args.len()
        invariant
            argv == string_views(args@),
            argv.len() == args@.len(),
            values@.len() == 13,
            i % 2 == 0,
            i <= args@.len() + 1,
            i / 2 <= pair_count(argv),
            i < args@.len() ==> i / 2 < pair_count(argv),
            i >= args@.len() ==> i / 2 == pair_count(argv),
            forall|m: int| 0 <= m < i / 2 ==> pair_fault(argv, m) is None,
            forall|f: Flag| opt_str_view(#[trigger] values@[flag_index(f)]) == last_value(argv, f, (i / 2) as int),
        decreases args@.len() + 1 - i,
    {
        let ghost k: int = (i / 2) as int;
        assert(argv[i as int] == args@[i as int]@);
        if i + 1 >= args.len() {
            proof {
                lemma_first_fault_at(argv, 0, k);
            }
            return Err(CliError::MissingValue(owned(args[i].as_str())));
        }
        assert(argv[i + 1] == args@[i + 1]@);
        let key = args[i].as_str();
        let value = args[i + 1].as_str();
        match flag_named(key) {
            None => {
                proof {
                    lemma_first_fault_at(argv, 0, k);
                }
                return Err(CliError::UnknownArgument(owned(key)));
            },
            Some(f) => {
                if is_numeric(f) {
                    match parse_u64(value, f) {
                        Ok(_) => {},
                        Err(e) => {
                            proof {
                                lemma_first_fault_at(argv, 0, k);
                            }
                            return Err(e);
                        },
                    }
                }
                let ghost old_values = values@;
                values.set(flag_slot(f), Some(value));
                proof {
                    assert forall|g: Flag| opt_str_view(#[trigger] values@[flag_index(g)]) == last_value(
                        argv,
                        g,
                        k + 1,
                    ) by {
                        if g != f {
                            assert(values@[flag_index(g)] == old_values[flag_index(g)]);
                        }
                    }
                }
            },
        }
        i = i + 2;
    }
    proof {
        lemma_no_fault_from(argv, 0);
    }
    let ghost k: int = pair_count(argv);
    assert(forall|f: Flag| opt_str_view(#[trigger] values@[flag_index(f)]) == value_of(argv, f));
    let socket = match kept(&values, Flag::Socket) {
        Some(s) => s,
        None => return Err(CliError::MissingRequired(Flag::Socket)),
    };
    let store = kept(&values, Flag::Store);
    let issuer_key = kept(&values, Flag::IssuerKey);
    let issuer_keys = kept(&values, Flag::IssuerKeys);
    let password = owned_opt(kept(&values, Flag::Password));
    if issuer_keys.is_some() && issuer_key.is_some() {
        return Err(CliError::IssuerKeysExclusive);
    }
    let ghost present = |f: Flag| value_of(argv, f) is Some;
    assert(present =~= (|f: Flag| values@[flag_index(f)] is Some));
    match store {
        Some(path) => {
            if issuer_keys.is_none() && issuer_key.is_none() {
                return Err(CliError::StoreNeedsIssuer);
            }
            match reject_mixed_cli_lease_args(&values) {
                Ok(()) => {},
                Err(e) => return Err(e),
            }
            let lease_source = match issuer_keys {
                Some(key_set) => LeaseSource::StoreWithKeySet { path: owned(path), key_set: owned(key_set) },
                None => LeaseSource::Store {
                    path: owned(path),
                    issuer_key: owned(issuer_key.unwrap()),
                },
            };
            Ok(
                Args {
                    socket: owned(socket),
                    lease_source,
                    subject: None,
                    device: None,
                    not_before: None,
                    expires_at: None,
                    revocation_epoch: None,
                    trusted_time_floor: None,
                    minimum_revocation_epoch: None,
                    ops: None,
                    password,
                },
            )
        },
        None => {
            if issuer_keys.is_some() || issuer_key.is_some() {
                return Err(CliError::IssuerNeedsStore);
            }
            cli_mode_args(&values, socket, password, Ghost(argv))
        },
    }
}

/// Command-line mode: every lease argument is required, checked in order.
fn cli_mode_args(values: &Vec<Option<&str>>, socket: &str, password: Option<String>, Ghost(argv): Ghost<
    Seq<Seq<char>>,
>) -> (r: Result<Args, CliError>)
    requires
        values@.len() == 13,
        forall|f: Flag| opt_str_view(#[trigger] values@[flag_index(f)]) == value_of(argv, f),
        value_of(argv, Flag::Socket) == Some(socket@),
        opt_text(password) == value_of(argv, Flag::Password),
    ensures
        ({
            let missing = |f: Flag| value_of(argv, f) is None;
            if first_present(required_cli_flags(), missing) is Some {
                r matches Err(e) && fault_of(e) == CliFault::MissingRequired(
                    first_present(required_cli_flags(), missing)->0,
                )
            } else {
                match ops_outcome(value_of(argv, Flag::Ops)->0) {
                    Err(f) => r matches Err(e) && fault_of(e) == f,
                    Ok(ops) => r matches Ok(parsed) && args_view(parsed) == ArgsView {
                        socket: socket@,
                        source: SourceView::Cli,
                        subject: value_of(argv, Flag::Subject),
                        device: value_of(argv, Flag::Device),
                        not_before: number_of(argv, Flag::NotBefore),
                        expires_at: number_of(argv, Flag::ExpiresAt),
                        revocation_epoch: number_of(argv, Flag::RevocationEpoch),
                        trusted_time_floor: number_of(argv, Flag::TrustedTimeFloor),
                        minimum_revocation_epoch: number_of(argv, Flag::MinRevocationEpoch),
                        ops: Some(ops),
                        password: value_of(argv, Flag::Password),
                    },
                }
            }
        }),
{
    proof {
        reveal_with_fuel(first_present, 9);
    }
    let subject = match kept(values, Flag::Subject) {
        Some(v) => v,
        None => return Err(CliError::MissingRequired(Flag::Subject)),
    };
    let device = match kept(values, Flag::Device) {
        Some(v) => v,
        None => return Err(CliError::MissingRequired(Flag::Device)),
    };
    let not_before = match kept(values, Flag::NotBefore) {
        Some(v) => v,
        None => return Err(CliError::MissingRequired(Flag::NotBefore)),
    };
    let expires_at = match kept(values, Flag::ExpiresAt) {
        Some(v) => v,
        None => return Err(CliError::MissingRequired(Flag::ExpiresAt)),
    };
    let revocation_epoch = match kept(values, Flag::RevocationEpoch) {
        Some(v) => v,
        None => return Err(CliError::MissingRequired(Flag::RevocationEpoch)),
    };
    let trusted_time_floor = match kept(values, Flag::TrustedTimeFloor) {
        Some(v) => v,
        None => return Err(CliError::MissingRequired(Flag::TrustedTimeFloor)),
    };
    let minimum_revocation_epoch = match kept(values, Flag::MinRevocationEpoch) {
        Some(v) => v,
        None => return Err(CliError::MissingRequired(Flag::MinRevocationEpoch)),
    };
    let ops_list = match kept(values, Flag::Ops) {
        Some(v) => v,
        None => return Err(CliError::MissingRequired(Flag::Ops)),
    };
    let ops = match parse_ops(ops_list) {
        Ok(ops) => ops,
        Err(e) => return Err(e),
    };
    Ok(
        Args {
            socket: owned(socket),
            lease_source: LeaseSource::Cli,
            subject: Some(owned(subject)),
            device: Some(owned(device)),
            not_before: parse_u64_text(not_before),
            expires_at: parse_u64_text(expires_at),
            revocation_epoch: parse_u64_text(revocation_epoch),
            trusted_time_floor: parse_u64_text(trusted_time_floor),
            minimum_revocation_epoch: parse_u64_text(minimum_revocation_epoch),
            ops: Some(ops),
            password,
        },
    )
}

} // verus!
