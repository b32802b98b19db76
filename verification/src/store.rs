//! Signed leases, the pinned issuer key set and the durable lease store.
//!
//! Leases are Ed25519-signed by the issuer over their canonical JSON
//! encoding, verified against a pinned issuer key, and kept together with
//! a revocation-epoch high-water mark so that an old-but-valid lease cannot
//! be replayed past a newer revocation state. Reading and writing the store
//! file is the caller's I/O; this module owns every decision about it.
use vstd::prelude::*;
use vstd::string::StringSliceAdditionalSpecFns;
use vstd::utf8::encode_utf8;
use crate::authz::{grants, operations_contain, Operation, VerifiedLease};
use crate::canonical::{
    json_string, lemma_decimal_unique, lemma_json_string_unique, push_decimal, push_str, write_json_string,
    write_string_field, decimal,
};
use crate::codec::{
    ed25519_point, ed25519_public_key, ed25519_signature, ed25519_signature_from_slice,
    ed25519_verifies, hex_bytes, hex_decodable, hex_decode, hex_encode, hex_text,
};
use crate::keys::{SigningKey, VerifyingKey};
use crate::text::{decimal_chars, has_prefix, lemma_has_prefix_concat, push_decimal_text, str_eq};
use vstd::string::StringExecFns;

verus! {

#[derive(Debug)]
pub enum StoreError {
    Io(std::io::Error),
    Json(serde_json::Error),
    Hex(hex::FromHexError),
    Signature(ed25519_dalek::SignatureError),
    BadKeyLength(usize),
}

#[derive(Debug)]
pub enum RecordError {
    Store(StoreError),
    RollbackDetected { stored: u64, incoming: u64 },
    Expired { now: u64, expires_at: u64 },
}

/// Owned mirror of the core `VerifiedLease`; the signed payload and the
/// store record carry it.
#[derive(Debug)]
pub struct LeasePayload {
    pub subject_id: String,
    pub device_id: String,
    pub not_before: u64,
    pub expires_at: u64,
    pub revocation_epoch: u64,
    pub operations: Vec<Operation>,
}

/// The content of a lease payload.
pub struct PayloadView {
    pub subject_id: Seq<char>,
    pub device_id: Seq<char>,
    pub not_before: u64,
    pub expires_at: u64,
    pub revocation_epoch: u64,
    pub operations: Seq<Operation>,
}

impl View for LeasePayload {
    type V = PayloadView;

    open spec fn view(&self) -> PayloadView {
        PayloadView {
            subject_id: self.subject_id@,
            device_id: self.device_id@,
            not_before: self.not_before,
            expires_at: self.expires_at,
            revocation_epoch: self.revocation_epoch,
            operations: self.operations@,
        }
    }
}

/// A core lease borrowed from a payload carries exactly the payload's content.
pub open spec fn lease_shows(lease: VerifiedLease, p: PayloadView) -> bool {
    &&& lease.subject_id@ == p.subject_id
    &&& lease.device_id@ == p.device_id
    &&& lease.not_before == p.not_before
    &&& lease.expires_at == p.expires_at
    &&& lease.revocation_epoch == p.revocation_epoch
    &&& lease.operations@ == p.operations
}

/// A copy of a list of operations.
pub fn copy_operations(ops: &Vec<Operation>) -> (r: Vec<Operation>)
    ensures
        r@ == ops@,
{
    let mut out: Vec<Operation> = Vec::new();
    let mut i: usize = 0;
    while i < ops.len()
        invariant
            i <= ops@.len(),
            out@ == ops@.subrange(0, i as int),
        decreases ops@.len() - i,
    {
        out.push(ops[i]);
        i = i + 1;
        assert(out@ =~= ops@.subrange(0, i as int));
    }
    assert(ops@.subrange(0, ops@.len() as int) =~= ops@);
    out
}

impl LeasePayload {
    /// The core lease view of this payload, borrowing its strings.
    pub fn verified_lease(&self) -> (r: VerifiedLease<'_>)
        ensures
            lease_shows(r, self@),
    {
        VerifiedLease {
            subject_id: self.subject_id.as_str(),
            device_id: self.device_id.as_str(),
            not_before: self.not_before,
            expires_at: self.expires_at,
            revocation_epoch: self.revocation_epoch,
            operations: self.operations.as_slice(),
        }
    }

    /// A field-by-field copy.
    pub fn duplicate(&self) -> (r: LeasePayload)
        ensures
            r@ == self@,
    {
        LeasePayload {
            subject_id: self.subject_id.clone(),
            device_id: self.device_id.clone(),
            not_before: self.not_before,
            expires_at: self.expires_at,
            revocation_epoch: self.revocation_epoch,
            operations: copy_operations(&self.operations),
        }
    }
}

/// The wire name of an operation.
pub open spec fn operation_name(op: Operation) -> Seq<u8> {
    match op {
        Operation::Login => "Login".spec_bytes(),
        Operation::Unlock => "Unlock".spec_bytes(),
        Operation::Elevate => "Elevate".spec_bytes(),
        Operation::RemoteLogin => "RemoteLogin".spec_bytes(),
    }
}

/// The JSON array body (without brackets) of an operation list, in order.
pub open spec fn operations_json(ops: Seq<Operation>) -> Seq<u8>
    decreases ops.len(),
{
    if ops.len() == 0 {
        Seq::empty()
    } else if ops.len() == 1 {
        json_string(operation_name(ops[0]))
    } else {
        operations_json(ops.drop_last()) + seq![0x2cu8] + json_string(operation_name(ops.last()))
    }
}

/// The pinned canonical encoding (lease-v1): compact JSON, fields in the
/// order subject_id, device_id, not_before, expires_at, revocation_epoch,
/// operations, operations in the issuer-supplied order, UTF-8 output.
pub open spec fn canonical_json(p: PayloadView) -> Seq<u8> {
    seq![0x7bu8] + seq![0x22u8] + "subject_id".spec_bytes() + seq![0x22u8, 0x3au8] + json_string(
        encode_utf8(p.subject_id),
    ) + ",\"device_id\":".spec_bytes() + json_string(encode_utf8(p.device_id))
        + ",\"not_before\":".spec_bytes() + decimal(p.not_before as nat)
        + ",\"expires_at\":".spec_bytes() + decimal(p.expires_at as nat)
        + ",\"revocation_epoch\":".spec_bytes() + decimal(p.revocation_epoch as nat)
        + ",\"operations\":[".spec_bytes() + operations_json(p.operations) + "]}".spec_bytes()
}

proof fn lemma_strip_prefix(k: Seq<u8>, x: Seq<u8>, y: Seq<u8>)
    requires
        k + x == k + y,
    ensures
        x == y,
{
    assert(x =~= (k + x).subrange(k.len() as int, (k + x).len() as int));
    assert(y =~= (k + y).subrange(k.len() as int, (k + y).len() as int));
}

proof fn lemma_chars_from_bytes(a: Seq<char>, b: Seq<char>)
    requires
        encode_utf8(a) == encode_utf8(b),
    ensures
        a == b,
{
    vstd::utf8::encode_utf8_decode_utf8(a);
    vstd::utf8::encode_utf8_decode_utf8(b);
}

proof fn lemma_comma_first(lit: &str)
    requires
        lit@.len() > 0,
        lit@[0] == ',',
        vstd::utf8::is_ascii_chars(lit@),
    ensures
        lit.spec_bytes().len() > 0,
        lit.spec_bytes()[0] == 0x2c,
{
    vstd::utf8::is_ascii_chars_encode_utf8(lit@);
    assert(lit@[0] as u8 == lit.spec_bytes()[0]);
}

proof fn lemma_operation_name_injective(a: Operation, b: Operation)
    requires
        operation_name(a) == operation_name(b),
    ensures
        a == b,
{
    reveal_strlit("Login");
    reveal_strlit("Unlock");
    reveal_strlit("Elevate");
    reveal_strlit("RemoteLogin");
    match a {
        Operation::Login => lemma_chars_from_bytes("Login"@, name_chars(b)),
        Operation::Unlock => lemma_chars_from_bytes("Unlock"@, name_chars(b)),
        Operation::Elevate => lemma_chars_from_bytes("Elevate"@, name_chars(b)),
        Operation::RemoteLogin => lemma_chars_from_bytes("RemoteLogin"@, name_chars(b)),
    }
}

spec fn name_chars(op: Operation) -> Seq<char> {
    match op {
        Operation::Login => "Login"@,
        Operation::Unlock => "Unlock"@,
        Operation::Elevate => "Elevate"@,
        Operation::RemoteLogin => "RemoteLogin"@,
    }
}

/// The operation list written from its first element.
proof fn lemma_operations_front(o: Operation, rest: Seq<Operation>)
    ensures
        operations_json(seq![o] + rest) == if rest.len() == 0 {
            json_string(operation_name(o))
        } else {
            json_string(operation_name(o)) + seq![0x2cu8] + operations_json(rest)
        },
    decreases rest.len(),
{
    let t = seq![o] + rest;
    if rest.len() == 0 {
        assert(t =~= seq![o]);
        assert(operations_json(t) == json_string(operation_name(t[0])));
    } else if rest.len() == 1 {
        assert(t.drop_last() =~= seq![o]);
        assert(t.last() == rest[0]);
        assert(operations_json(t.drop_last()) == json_string(operation_name(o)));
        assert(operations_json(t) == operations_json(t.drop_last()) + seq![0x2cu8] + json_string(
            operation_name(t.last()),
        ));
        assert(operations_json(rest) == json_string(operation_name(rest[0])));
    } else {
        lemma_operations_front(o, rest.drop_last());
        assert(t.drop_last() =~= seq![o] + rest.drop_last());
        assert(t.last() == rest.last());
        assert(operations_json(t) == operations_json(t.drop_last()) + seq![0x2cu8] + json_string(
            operation_name(t.last()),
        ));
        assert(operations_json(rest) == operations_json(rest.drop_last()) + seq![0x2cu8] + json_string(
            operation_name(rest.last()),
        ));
        assert(json_string(operation_name(o)) + seq![0x2cu8] + operations_json(rest.drop_last()) + seq![0x2cu8]
            + json_string(operation_name(rest.last())) =~= json_string(operation_name(o)) + seq![0x2cu8] + (
        operations_json(rest.drop_last()) + seq![0x2cu8] + json_string(operation_name(rest.last()))));
    }
}

/// A non-empty operation list starts with a quote.
proof fn lemma_operations_quote_start(c: Seq<Operation>)
    requires
        c.len() > 0,
    ensures
        operations_json(c).len() > 0,
        operations_json(c)[0] == 0x22,
{
    lemma_operations_front(c[0], c.drop_first());
    assert(seq![c[0]] + c.drop_first() =~= c);
    let first = json_string(operation_name(c[0]));
    assert(first[0] == 0x22);
    if c.len() > 1 {
        assert((first + seq![0x2cu8] + operations_json(c.drop_first()))[0] == first[0]);
    }
}

/// The rest of an operation list after its first name.
spec fn operations_tail(a: Seq<Operation>, close: Seq<u8>) -> Seq<u8> {
    if a.len() == 1 {
        close
    } else {
        seq![0x2cu8] + (operations_json(a.drop_first()) + close)
    }
}

proof fn lemma_operations_split(a: Seq<Operation>, close: Seq<u8>)
    requires
        a.len() > 0,
    ensures
        operations_json(a) + close == json_string(operation_name(a[0])) + operations_tail(a, close),
{
    lemma_operations_front(a[0], a.drop_first());
    assert(seq![a[0]] + a.drop_first() =~= a);
    if a.len() == 1 {
    } else {
        assert(json_string(operation_name(a[0])) + seq![0x2cu8] + operations_json(a.drop_first()) + close
            =~= json_string(operation_name(a[0])) + (seq![0x2cu8] + (operations_json(a.drop_first()) + close)));
    }
}

#[verifier::spinoff_prover]
proof fn lemma_operations_head(a: Seq<Operation>, b: Seq<Operation>, close: Seq<u8>)
    requires
        a.len() > 0,
        b.len() > 0,
        close.len() > 0,
        close[0] != 0x2c,
        operations_json(a) + close == operations_json(b) + close,
    ensures
        a[0] == b[0],
        a.len() == 1 <==> b.len() == 1,
        a.len() > 1 ==> operations_json(a.drop_first()) + close == operations_json(b.drop_first()) + close,
{
    lemma_operations_split(a, close);
    lemma_operations_split(b, close);
    let ra = operations_tail(a, close);
    let rb = operations_tail(b, close);
    lemma_json_string_unique(operation_name(a[0]), operation_name(b[0]), ra, rb);
    lemma_operation_name_injective(a[0], b[0]);
    if a.len() > 1 && b.len() > 1 {
        lemma_strip_prefix(seq![0x2cu8], operations_json(a.drop_first()) + close, operations_json(b.drop_first())
            + close);
    } else if a.len() > 1 {
        assert(ra[0] == 0x2c);
        assert(rb[0] == close[0]);
    } else if b.len() > 1 {
        assert(rb[0] == 0x2c);
        assert(ra[0] == close[0]);
    }
}

/// An operation list followed by the closing bytes is read back.
proof fn lemma_operations_unique(a: Seq<Operation>, b: Seq<Operation>, close: Seq<u8>)
    requires
        close.len() > 0,
        close[0] != 0x2c,
        close[0] != 0x22,
        operations_json(a) + close == operations_json(b) + close,
    ensures
        a == b,
    decreases a.len() + b.len(),
{
    if a.len() == 0 && b.len() == 0 {
    } else if a.len() == 0 {
        lemma_operations_quote_start(b);
        assert(operations_json(a) + close =~= close);
        assert((operations_json(b) + close)[0] == operations_json(b)[0]);
    } else if b.len() == 0 {
        lemma_operations_quote_start(a);
        assert(operations_json(b) + close =~= close);
        assert((operations_json(a) + close)[0] == operations_json(a)[0]);
    } else {
        lemma_operations_head(a, b, close);
        if a.len() > 1 {
            lemma_operations_unique(a.drop_first(), b.drop_first(), close);
        }
        assert(a =~= seq![a[0]] + a.drop_first());
        assert(b =~= seq![b[0]] + b.drop_first());
    }
}

/// The canonical bytes from the subject's value on, grouped from the right.
spec fn canonical_rest(p: PayloadView) -> Seq<u8> {
    json_string(encode_utf8(p.subject_id)) + (",\"device_id\":".spec_bytes() + (json_string(
        encode_utf8(p.device_id),
    ) + (",\"not_before\":".spec_bytes() + (decimal(p.not_before as nat) + (",\"expires_at\":".spec_bytes()
        + (decimal(p.expires_at as nat) + (",\"revocation_epoch\":".spec_bytes() + (decimal(
        p.revocation_epoch as nat,
    ) + (",\"operations\":[".spec_bytes() + (operations_json(p.operations) + "]}".spec_bytes()))))))))))
}

#[verifier::spinoff_prover]
proof fn lemma_canonical_grouped(p: PayloadView)
    ensures
        canonical_json(p) == seq![0x7bu8] + seq![0x22u8] + "subject_id".spec_bytes() + seq![0x22u8, 0x3au8]
            + canonical_rest(p),
{
    let t0 = seq![0x7bu8] + seq![0x22u8] + "subject_id".spec_bytes() + seq![0x22u8, 0x3au8];
    let t1 = json_string(encode_utf8(p.subject_id));
    let t2 = ",\"device_id\":".spec_bytes();
    let t3 = json_string(encode_utf8(p.device_id));
    let t4 = ",\"not_before\":".spec_bytes();
    let t5 = decimal(p.not_before as nat);
    let t6 = ",\"expires_at\":".spec_bytes();
    let t7 = decimal(p.expires_at as nat);
    let t8 = ",\"revocation_epoch\":".spec_bytes();
    let t9 = decimal(p.revocation_epoch as nat);
    let t10 = ",\"operations\":[".spec_bytes();
    let t11 = operations_json(p.operations);
    let t12 = "]}".spec_bytes();
    let l1 = t0 + t1;
    let l2 = l1 + t2;
    let l3 = l2 + t3;
    let l4 = l3 + t4;
    let l5 = l4 + t5;
    let l6 = l5 + t6;
    let l7 = l6 + t7;
    let l8 = l7 + t8;
    let l9 = l8 + t9;
    let l10 = l9 + t10;
    let l11 = l10 + t11;
    let r11 = t11 + t12;
    let r10 = t10 + r11;
    let r9 = t9 + r10;
    let r8 = t8 + r9;
    let r7 = t7 + r8;
    let r6 = t6 + r7;
    let r5 = t5 + r6;
    let r4 = t4 + r5;
    let r3 = t3 + r4;
    let r2 = t2 + r3;
    let r1 = t1 + r2;
    assert(canonical_json(p) == l11 + t12);
    vstd::seq_lib::lemma_concat_associative(l10, t11, t12);
    vstd::seq_lib::lemma_concat_associative(l9, t10, r11);
    vstd::seq_lib::lemma_concat_associative(l8, t9, r10);
    vstd::seq_lib::lemma_concat_associative(l7, t8, r9);
    vstd::seq_lib::lemma_concat_associative(l6, t7, r8);
    vstd::seq_lib::lemma_concat_associative(l5, t6, r7);
    vstd::seq_lib::lemma_concat_associative(l4, t5, r6);
    vstd::seq_lib::lemma_concat_associative(l3, t4, r5);
    vstd::seq_lib::lemma_concat_associative(l2, t3, r4);
    vstd::seq_lib::lemma_concat_associative(l1, t2, r3);
    vstd::seq_lib::lemma_concat_associative(t0, t1, r2);
    assert(canonical_rest(p) == r1);
}

/// Distinct payloads have distinct canonical bytes: the encoding is read
/// back field by field, so escaping keeps any value from changing the
/// meaning of the signed bytes.
pub proof fn lemma_canonical_json_injective(p: PayloadView, q: PayloadView)
    requires
        canonical_json(p) == canonical_json(q),
    ensures
        p == q,
{
    reveal_strlit(",\"device_id\":");
    reveal_strlit(",\"not_before\":");
    reveal_strlit(",\"expires_at\":");
    reveal_strlit(",\"revocation_epoch\":");
    reveal_strlit(",\"operations\":[");
    reveal_strlit("]}");
    let k2 = ",\"device_id\":".spec_bytes();
    let k3 = ",\"not_before\":".spec_bytes();
    let k4 = ",\"expires_at\":".spec_bytes();
    let k5 = ",\"revocation_epoch\":".spec_bytes();
    let k6 = ",\"operations\":[".spec_bytes();
    let close = "]}".spec_bytes();
    lemma_comma_first(",\"not_before\":");
    lemma_comma_first(",\"expires_at\":");
    lemma_comma_first(",\"revocation_epoch\":");
    lemma_comma_first(",\"operations\":[");
    vstd::utf8::is_ascii_chars_encode_utf8("]}"@);
    assert(close[0] == 0x5d);
    lemma_canonical_grouped(p);
    lemma_canonical_grouped(q);
    let head = seq![0x7bu8] + seq![0x22u8] + "subject_id".spec_bytes() + seq![0x22u8, 0x3au8];
    lemma_strip_prefix(head, canonical_rest(p), canonical_rest(q));
    let t6p = operations_json(p.operations) + close;
    let t6q = operations_json(q.operations) + close;
    let d3p = decimal(p.revocation_epoch as nat) + (k6 + t6p);
    let d3q = decimal(q.revocation_epoch as nat) + (k6 + t6q);
    let d2p = decimal(p.expires_at as nat) + (k5 + d3p);
    let d2q = decimal(q.expires_at as nat) + (k5 + d3q);
    let d1p = decimal(p.not_before as nat) + (k4 + d2p);
    let d1q = decimal(q.not_before as nat) + (k4 + d2q);
    let s2p = json_string(encode_utf8(p.device_id)) + (k3 + d1p);
    let s2q = json_string(encode_utf8(q.device_id)) + (k3 + d1q);
    lemma_json_string_unique(encode_utf8(p.subject_id), encode_utf8(q.subject_id), k2 + s2p, k2 + s2q);
    lemma_chars_from_bytes(p.subject_id, q.subject_id);
    lemma_strip_prefix(k2, s2p, s2q);
    lemma_json_string_unique(encode_utf8(p.device_id), encode_utf8(q.device_id), k3 + d1p, k3 + d1q);
    lemma_chars_from_bytes(p.device_id, q.device_id);
    lemma_strip_prefix(k3, d1p, d1q);
    lemma_decimal_unique(p.not_before as nat, q.not_before as nat, k4 + d2p, k4 + d2q);
    lemma_strip_prefix(k4, d2p, d2q);
    lemma_decimal_unique(p.expires_at as nat, q.expires_at as nat, k5 + d3p, k5 + d3q);
    lemma_strip_prefix(k5, d3p, d3q);
    lemma_decimal_unique(p.revocation_epoch as nat, q.revocation_epoch as nat, k6 + t6p, k6 + t6q);
    lemma_strip_prefix(k6, t6p, t6q);
    lemma_operations_unique(p.operations, q.operations, close);
}

fn operation_name_str(op: Operation) -> (r: &'static str)
    ensures
        r.spec_bytes() == operation_name(op),
{
    match op {
        Operation::Login => "Login",
        Operation::Unlock => "Unlock",
        Operation::Elevate => "Elevate",
        Operation::RemoteLogin => "RemoteLogin",
    }
}

/// The canonical lease-v1 bytes of a payload. Signers and verifiers must
/// produce exactly these bytes; any other order, spacing or casing signs a
/// different message.
pub fn canonical_payload_json(payload: &LeasePayload) -> (r: Vec<u8>)
    ensures
        r@ == canonical_json(payload@),
{
    let mut out: Vec<u8> = Vec::with_capacity(256);
    out.push(0x7b);
    write_string_field(&mut out, "subject_id", payload.subject_id.as_str());
    push_str(&mut out, ",\"device_id\":");
    write_json_string(&mut out, payload.device_id.as_str());
    push_str(&mut out, ",\"not_before\":");
    push_decimal(&mut out, payload.not_before);
    push_str(&mut out, ",\"expires_at\":");
    push_decimal(&mut out, payload.expires_at);
    push_str(&mut out, ",\"revocation_epoch\":");
    push_decimal(&mut out, payload.revocation_epoch);
    push_str(&mut out, ",\"operations\":[");
    let ghost before_ops = out@;
    let ops = &payload.operations;
    let mut index: usize = 0;
    while index < ops.len()
        invariant
            index <= ops@.len(),
            out@ == before_ops + operations_json(ops@.subrange(0, index as int)),
        decreases ops@.len() - index,
    {
        let ghost prefix = out@;
        if index > 0 {
            out.push(0x2c);
        }
        write_json_string(&mut out, operation_name_str(ops[index]));
        proof {
            let next = ops@.subrange(0, index + 1);
            assert(next.drop_last() =~= ops@.subrange(0, index as int));
            assert(next.last() == ops@[index as int]);
            if index == 0 {
                assert(next.len() == 1);
                assert(operations_json(ops@.subrange(0, 0)) =~= Seq::<u8>::empty());
            }
        }
        index = index + 1;
        assert(out@ =~= before_ops + operations_json(ops@.subrange(0, index as int)));
    }
    assert(ops@.subrange(0, ops@.len() as int) =~= ops@);
    push_str(&mut out, "]}");
    assert(out@ =~= canonical_json(payload@));
    out
}

/// A lease payload plus its hex Ed25519 signature over the canonical
/// encoding, and the id of the issuer key that signed it (empty in the
/// single-key mode).
#[derive(Debug)]
pub struct SignedLease {
    pub payload: LeasePayload,
    pub signature: String,
    pub key_id: String,
}

/// The content of a signed lease.
pub struct SignedView {
    pub payload: PayloadView,
    pub signature: Seq<char>,
    pub key_id: Seq<char>,
}

impl View for SignedLease {
    type V = SignedView;

    open spec fn view(&self) -> SignedView {
        SignedView { payload: self.payload@, signature: self.signature@, key_id: self.key_id@ }
    }
}

/// The check a signature fails.
pub enum SignatureFault {
    /// The signature text is not an even run of hex digits.
    Hex,
    /// The decoded signature is not 64 bytes.
    Length,
    /// Strict Ed25519 verification rejects it.
    Rejected,
}

/// Which check, in order, a hex signature over `payload` fails for the
/// public key `public`; `None` when it verifies.
pub open spec fn signature_fault(signature: Seq<char>, payload: PayloadView, public: Seq<u8>) -> Option<
    SignatureFault,
> {
    let text = encode_utf8(signature);
    if !hex_decodable(text) {
        Some(SignatureFault::Hex)
    } else if hex_bytes(text).len() != 64 {
        Some(SignatureFault::Length)
    } else if !ed25519_verifies(public, canonical_json(payload), hex_bytes(text)) {
        Some(SignatureFault::Rejected)
    } else {
        None
    }
}

/// The error a store operation reports for a signature fault.
pub open spec fn fault_reported(fault: SignatureFault, e: StoreError) -> bool {
    match fault {
        SignatureFault::Hex => e is Hex,
        _ => e is Signature,
    }
}

/// The hex signature the issuer with secret `seed` makes over `payload`.
pub open spec fn signature_text(seed: Seq<u8>, payload: PayloadView) -> Seq<char> {
    hex_text(ed25519_signature(seed, canonical_json(payload)))
}

/// Copy 64 bytes out of a vector of that length.
fn bytes64(v: &Vec<u8>) -> (r: [u8; 64])
    requires
        v@.len() == 64,
    ensures
        r@ == v@,
{
    let mut out = [0u8; 64];
    let mut i: usize = 0;
    while i < 64
        invariant
            v@.len() == 64,
            i <= 64,
            out@.len() == 64,
            forall|j: int| 0 <= j < i ==> out@[j] == v@[j],
        decreases 64 - i,
    {
        out[i] = v[i];
        i = i + 1;
    }
    assert(out@ =~= v@);
    out
}

/// Copy 32 bytes out of a vector of that length.
fn bytes32(v: &Vec<u8>) -> (r: [u8; 32])
    requires
        v@.len() == 32,
    ensures
        r@ == v@,
{
    let mut out = [0u8; 32];
    let mut i: usize = 0;
    while i < 32
        invariant
            v@.len() == 32,
            i <= 32,
            out@.len() == 32,
            forall|j: int| 0 <= j < i ==> out@[j] == v@[j],
        decreases 32 - i,
    {
        out[i] = v[i];
        i = i + 1;
    }
    assert(out@ =~= v@);
    out
}

/// Verify a hex signature over `payload` with `issuer`.
fn check_signature(signature: &String, payload: &LeasePayload, issuer: &VerifyingKey) -> (r: Result<
    (),
    StoreError,
>)
    ensures
        r is Ok <==> signature_fault(signature@, payload@, issuer@) is None,
        r matches Err(e) ==> fault_reported(signature_fault(signature@, payload@, issuer@)->0, e),
{
    let sig_bytes = match hex_decode(signature.as_str()) {
        Ok(bytes) => bytes,
        Err(e) => return Err(StoreError::Hex(e)),
    };
    let sig = match ed25519_signature_from_slice(sig_bytes.as_slice()) {
        Ok(sig) => sig,
        Err(e) => return Err(StoreError::Signature(e)),
    };
    let bytes = canonical_payload_json(payload);
    match issuer.verify_strict(bytes.as_slice(), &sig) {
        Ok(()) => Ok(()),
        Err(e) => Err(StoreError::Signature(e)),
    }
}

impl SignedLease {
    /// Sign `payload` with `issuer`; the lease carries no key id.
    pub fn sign(payload: LeasePayload, issuer: &SigningKey) -> (r: Self)
        ensures
            r.payload@ == payload@,
            r.signature@ == signature_text(issuer@, payload@),
            r.key_id@ == Seq::<char>::empty(),
    {
        proof {
            reveal_strlit("");
        }
        Self::sign_with_key_id(payload, issuer, "")
    }

    /// Sign `payload` with `issuer` and record the signing key's id.
    pub fn sign_with_key_id(payload: LeasePayload, issuer: &SigningKey, key_id: &str) -> (r: Self)
        ensures
            r.payload@ == payload@,
            r.signature@ == signature_text(issuer@, payload@),
            r.key_id@ == key_id@,
    {
        let bytes = canonical_payload_json(&payload);
        let sig = issuer.sign(bytes.as_slice());
        let signature = hex_encode(&sig);
        Self { payload, signature, key_id: key_id.to_owned() }
    }

    /// Verify against the pinned issuer key; the verified payload on success.
    /// Callers may only turn the result into a core lease after this passes.
    pub fn verify(&self, issuer: &VerifyingKey) -> (r: Result<&LeasePayload, StoreError>)
        ensures
            r is Ok <==> signature_fault(self.signature@, self.payload@, issuer@) is None,
            r matches Ok(p) ==> p@ == self.payload@,
            r matches Err(e) ==> fault_reported(
                signature_fault(self.signature@, self.payload@, issuer@)->0,
                e,
            ),
    {
        match check_signature(&self.signature, &self.payload, issuer) {
            Ok(()) => Ok(&self.payload),
            Err(e) => Err(e),
        }
    }
}

/// A lease signed by the issuer with secret `seed` passes every check under
/// that issuer's public key exactly when strict Ed25519 verification accepts
/// the signature the issuer made: the hex text of a 64-byte signature always
/// decodes back to it.
pub proof fn lemma_signed_lease_verifies_iff_ed25519_accepts(
    payload: PayloadView,
    seed: Seq<u8>,
    signature: [u8; 64],
)
    requires
        signature@ == ed25519_signature(seed, canonical_json(payload)),
    ensures
        signature_fault(signature_text(seed, payload), payload, ed25519_public_key(seed)) is None
            <==> ed25519_verifies(
            ed25519_public_key(seed),
            canonical_json(payload),
            ed25519_signature(seed, canonical_json(payload)),
        ),
{
    crate::codec::lemma_hex_roundtrip(signature@);
}

/// Generate an issuer key pair from a 32-byte seed (tests and tooling; the
/// key ceremony itself is an owner decision).
pub fn issuer_keypair(seed: &[u8; 32]) -> (r: Result<(SigningKey, VerifyingKey), StoreError>)
    ensures
        r matches Ok((signing, verifying)) && signing@ == seed@ && verifying@ == ed25519_public_key(
            seed@,
        ),
{
    let signing = SigningKey::from_bytes(seed);
    let verifying = signing.verifying_key();
    Ok((signing, verifying))
}

/// The 32 key bytes a pinned hex public key stands for, when it is hex of
/// exactly 32 bytes that decompress to a curve point.
pub open spec fn pinned_key_bytes(hex_key: Seq<char>) -> Option<Seq<u8>> {
    let text = encode_utf8(hex_key);
    if hex_decodable(text) && hex_bytes(text).len() == 32 && ed25519_point(hex_bytes(text)) {
        Some(hex_bytes(text))
    } else {
        None
    }
}

/// The error parsing a pinned hex public key reports: not hex, then a
/// length other than 32 (carrying the length), then a point that does not
/// decompress.
pub open spec fn pinned_key_error(hex_key: Seq<char>, e: StoreError) -> bool {
    let text = encode_utf8(hex_key);
    if !hex_decodable(text) {
        e is Hex
    } else if hex_bytes(text).len() != 32 {
        e matches StoreError::BadKeyLength(n) && n == hex_bytes(text).len()
    } else {
        e is Signature
    }
}

/// Parse a 32-byte hex issuer public key (the pinned-key argument shape).
pub fn issuer_verifying_key(hex_key: &str) -> (r: Result<VerifyingKey, StoreError>)
    ensures
        match pinned_key_bytes(hex_key@) {
            Some(bytes) => r matches Ok(k) && k@ == bytes,
            None => r matches Err(e) && pinned_key_error(hex_key@, e),
        },
{
    let bytes = match hex_decode(hex_key) {
        Ok(bytes) => bytes,
        Err(e) => return Err(StoreError::Hex(e)),
    };
    if bytes.len() != 32 {
        return Err(StoreError::BadKeyLength(bytes.len()));
    }
    let key = bytes32(&bytes);
    match VerifyingKey::from_bytes(&key) {
        Ok(k) => Ok(k),
        Err(e) => Err(StoreError::Signature(e)),
    }
}

#[derive(Clone, Copy, Debug, PartialEq, Eq, Structural)]
pub enum KeyState {
    Active,
    Retiring,
    Revoked,
}

#[derive(Debug)]
pub struct PinnedIssuerKey {
    pub key_id: String,
    pub public_key_hex: String,
    pub state: KeyState,
}

/// The content of a pinned key.
pub struct PinnedView {
    pub key_id: Seq<char>,
    pub public_key_hex: Seq<char>,
    pub state: KeyState,
}

impl View for PinnedIssuerKey {
    type V = PinnedView;

    open spec fn view(&self) -> PinnedView {
        PinnedView { key_id: self.key_id@, public_key_hex: self.public_key_hex@, state: self.state }
    }
}

impl PinnedIssuerKey {
    /// A field-by-field copy.
    pub fn duplicate(&self) -> (r: PinnedIssuerKey)
        ensures
            r@ == self@,
    {
        PinnedIssuerKey {
            key_id: self.key_id.clone(),
            public_key_hex: self.public_key_hex.clone(),
            state: self.state,
        }
    }
}

/// The pinned issuer key set. Exactly one `Active` key signs new leases;
/// `Retiring` keys still verify during the rotation overlap; `Revoked` keys
/// never verify.
#[derive(Debug)]
pub struct IssuerKeySet {
    pub version: u32,
    pub keys: Vec<PinnedIssuerKey>,
}

#[derive(Debug)]
pub enum KeyError {
    UnknownKeyId(String),
    RevokedKey(String),
    NotExactlyOneActive,
    KeyIdMismatch { key_id: String },
    Io(std::io::Error),
    Json(serde_json::Error),
    Hex(hex::FromHexError),
    Store(StoreError),
}

/// The views of a list of pinned keys.
pub open spec fn pinned_views(keys: Seq<PinnedIssuerKey>) -> Seq<PinnedView> {
    keys.map_values(|k: PinnedIssuerKey| k@)
}

/// The number of `Active` keys.
pub open spec fn active_count(keys: Seq<PinnedView>) -> nat
    decreases keys.len(),
{
    if keys.len() == 0 {
        0
    } else {
        active_count(keys.drop_last()) + if keys.last().state == KeyState::Active {
            1nat
        } else {
            0nat
        }
    }
}

/// ASCII lowercase of one byte.
pub open spec fn ascii_lower(b: u8) -> u8 {
    if 0x41 <= b <= 0x5a {
        (b + 0x20) as u8
    } else {
        b
    }
}

/// The key id derived from a public key: lowercase hex of the SHA-256 of
/// its raw bytes.
pub open spec fn derived_key_id(raw: Seq<u8>) -> Seq<u8> {
    encode_utf8(hex_text(crate::codec::sha256(raw)))
}

/// The check a pinned key's id fails: the public key is not hex, or the id
/// (compared case-insensitively) is not the derived id.
pub enum KeyIdFault {
    Hex,
    Mismatch,
}

pub open spec fn key_id_fault(k: PinnedView) -> Option<KeyIdFault> {
    let text = encode_utf8(k.public_key_hex);
    if !hex_decodable(text) {
        Some(KeyIdFault::Hex)
    } else if derived_key_id(hex_bytes(text)) != encode_utf8(k.key_id).map_values(
        |b: u8| ascii_lower(b),
    ) {
        Some(KeyIdFault::Mismatch)
    } else {
        None
    }
}

/// The error reported for a key-id fault of key `k`.
pub open spec fn key_fault_reported(fault: KeyIdFault, k: PinnedView, e: KeyError) -> bool {
    match fault {
        KeyIdFault::Hex => e is Hex,
        KeyIdFault::Mismatch => e matches KeyError::KeyIdMismatch { key_id } && key_id@ == k.key_id,
    }
}

/// Whether `derived` equals the ASCII-lowercased `id`.
fn equals_lowercased(derived: &[u8], id: &[u8]) -> (r: bool)
    ensures
        r == (derived@ == id@.map_values(|b: u8| ascii_lower(b))),
{
    let ghost lowered = id@.map_values(|b: u8| ascii_lower(b));
    if derived.len() != id.len() {
        assert(lowered.len() == id@.len());
        return false;
    }
    let mut i: usize = 0;
    while i < id.len()
        invariant
            derived@.len() == id@.len(),
            lowered == id@.map_values(|b: u8| ascii_lower(b)),
            i <= id@.len(),
            forall|j: int| 0 <= j < i ==> derived@[j] == lowered[j],
        decreases id@.len() - i,
    {
        let b = id[i];
        let lower = if 0x41 <= b && b <= 0x5a {
            b + 0x20
        } else {
            b
        };
        if derived[i] != lower {
            assert(lowered[i as int] == lower);
            return false;
        }
        i = i + 1;
    }
    assert(derived@ =~= lowered);
    true
}

impl IssuerKeySet {
    pub open spec fn key_views(&self) -> Seq<PinnedView> {
        pinned_views(self.keys@)
    }

    /// A key's id must be the lowercase hex SHA-256 of its raw public key.
    /// The id is compared after ASCII lowercasing; since the derived id is
    /// ASCII hex, this accepts exactly the ids that Unicode lowercasing
    /// would.
    pub fn validate_key_id(key: &PinnedIssuerKey) -> (r: Result<(), KeyError>)
        ensures
            r is Ok <==> key_id_fault(key@) is None,
            r matches Err(e) ==> key_fault_reported(key_id_fault(key@)->0, key@, e),
    {
        let raw = match hex_decode(key.public_key_hex.as_str()) {
            Ok(raw) => raw,
            Err(e) => return Err(KeyError::Hex(e)),
        };
        let digest = crate::codec::sha256_digest(raw.as_slice());
        let derived = hex_encode(&digest);
        if !equals_lowercased(derived.as_str().as_bytes(), key.key_id.as_str().as_bytes()) {
            return Err(KeyError::KeyIdMismatch { key_id: key.key_id.clone() });
        }
        Ok(())
    }

    /// Exactly one active key, and every key id derived from its key;
    /// checked in that order, keys in list order.
    pub fn validate(&self) -> (r: Result<(), KeyError>)
        ensures
            active_count(self.key_views()) != 1 ==> r matches Err(KeyError::NotExactlyOneActive),
            active_count(self.key_views()) == 1 ==> (r is Ok <==> forall|i: int|
                0 <= i < self.keys@.len() ==> key_id_fault(#[trigger] self.key_views()[i]) is None),
            active_count(self.key_views()) == 1 ==> (r matches Err(e) ==> exists|i: int|
                0 <= i < self.keys@.len() && key_id_fault(#[trigger] self.key_views()[i]) is Some
                    && (forall|j: int| 0 <= j < i ==> key_id_fault(self.key_views()[j]) is None)
                    && key_fault_reported(key_id_fault(self.key_views()[i])->0, self.key_views()[i], e)),
    {
        if count_active(&self.keys) != 1 {
            return Err(KeyError::NotExactlyOneActive);
        }
        validate_key_ids(&self.keys)
    }
}

fn count_active(keys: &Vec<PinnedIssuerKey>) -> (r: usize)
    ensures
        r == active_count(pinned_views(keys@)),
{
    let ghost views = pinned_views(keys@);
    let mut count: usize = 0;
    let mut i: usize = 0;
    while i < keys.len()
        invariant
            views == pinned_views(keys@),
            i <= keys@.len(),
            count == active_count(views.subrange(0, i as int)),
            count <= i,
        decreases keys@.len() - i,
    {
        proof {
            let next = views.subrange(0, i + 1);
            assert(next.drop_last() =~= views.subrange(0, i as int));
        }
        if keys[i].state == KeyState::Active {
            count = count + 1;
        }
        i = i + 1;
    }
    assert(views.subrange(0, views.len() as int) =~= views);
    count
}

fn validate_key_ids(keys: &Vec<PinnedIssuerKey>) -> (r: Result<(), KeyError>)
    ensures
        r is Ok <==> forall|i: int|
            0 <= i < keys@.len() ==> key_id_fault(#[trigger] pinned_views(keys@)[i]) is None,
        r matches Err(e) ==> exists|i: int|
            0 <= i < keys@.len() && key_id_fault(#[trigger] pinned_views(keys@)[i]) is Some && (
            forall|j: int| 0 <= j < i ==> key_id_fault(pinned_views(keys@)[j]) is None)
                && key_fault_reported(key_id_fault(pinned_views(keys@)[i])->0, pinned_views(keys@)[i], e),
{
    let ghost views = pinned_views(keys@);
    let mut k: usize = 0;
    while k < keys.len()
        invariant
            views == pinned_views(keys@),
            k <= keys@.len(),
            forall|j: int| 0 <= j < k ==> key_id_fault(#[trigger] views[j]) is None,
        decreases keys@.len() - k,
    {
        match IssuerKeySet::validate_key_id(&keys[k]) {
            Ok(()) => {},
            Err(e) => {
                assert(views[k as int] == keys@[k as int]@);
                return Err(e);
            },
        }
        k = k + 1;
    }
    Ok(())
}

/// `i` is the first key whose id is `key_id`.
pub open spec fn first_with_id(keys: Seq<PinnedView>, key_id: Seq<char>, i: int) -> bool {
    &&& 0 <= i < keys.len()
    &&& keys[i].key_id == key_id
    &&& forall|j: int| 0 <= j < i ==> keys[j].key_id != key_id
}

/// `i` is the first active key.
pub open spec fn first_active(keys: Seq<PinnedView>, i: int) -> bool {
    &&& 0 <= i < keys.len()
    &&& keys[i].state == KeyState::Active
    &&& forall|j: int| 0 <= j < i ==> keys[j].state != KeyState::Active
}

/// What parsing a pinned key's public key gives, lifted to key errors.
pub open spec fn pinned_key_result(k: PinnedView, r: Result<VerifyingKey, KeyError>) -> bool {
    match pinned_key_bytes(k.public_key_hex) {
        Some(bytes) => r matches Ok(v) && v@ == bytes,
        None => r matches Err(KeyError::Store(e)) && pinned_key_error(k.public_key_hex, e),
    }
}

fn find_key_id(keys: &Vec<PinnedIssuerKey>, key_id: &str) -> (r: Option<usize>)
    ensures
        r is None ==> forall|i: int| 0 <= i < keys@.len() ==> pinned_views(keys@)[i].key_id != key_id@,
        r matches Some(i) ==> first_with_id(pinned_views(keys@), key_id@, i as int),
{
    let ghost views = pinned_views(keys@);
    let mut i: usize = 0;
    while i < keys.len()
        invariant
            views == pinned_views(keys@),
            i <= keys@.len(),
            forall|j: int| 0 <= j < i ==> views[j].key_id != key_id@,
        decreases keys@.len() - i,
    {
        if str_eq(keys[i].key_id.as_str(), key_id) {
            return Some(i);
        }
        i = i + 1;
    }
    None
}

fn find_active(keys: &Vec<PinnedIssuerKey>) -> (r: Option<usize>)
    ensures
        r is None ==> forall|i: int| 0 <= i < keys@.len() ==> pinned_views(keys@)[i].state != KeyState::Active,
        r matches Some(i) ==> first_active(pinned_views(keys@), i as int),
{
    let ghost views = pinned_views(keys@);
    let mut i: usize = 0;
    while i < keys.len()
        invariant
            views == pinned_views(keys@),
            i <= keys@.len(),
            forall|j: int| 0 <= j < i ==> views[j].state != KeyState::Active,
        decreases keys@.len() - i,
    {
        if keys[i].state == KeyState::Active {
            return Some(i);
        }
        i = i + 1;
    }
    None
}

fn pinned_verifying_key(pinned: &PinnedIssuerKey) -> (r: Result<VerifyingKey, KeyError>)
    ensures
        pinned_key_result(pinned@, r),
{
    match issuer_verifying_key(pinned.public_key_hex.as_str()) {
        Ok(k) => Ok(k),
        Err(e) => Err(KeyError::Store(e)),
    }
}

impl IssuerKeySet {
    /// The verifying key for `key_id`: the first key with that id decides;
    /// active and retiring keys verify, revoked and unknown ids fail closed.
    pub fn verifying_key_for(&self, key_id: &str) -> (r: Result<VerifyingKey, KeyError>)
        ensures
            (forall|i: int| 0 <= i < self.keys@.len() ==> self.key_views()[i].key_id != key_id@)
                ==> (r matches Err(KeyError::UnknownKeyId(s)) && s@ == key_id@),
            forall|i: int|
                first_with_id(self.key_views(), key_id@, i) ==> if self.key_views()[i].state
                    == KeyState::Revoked {
                    r matches Err(KeyError::RevokedKey(s)) && s@ == key_id@
                } else {
                    pinned_key_result(self.key_views()[i], r)
                },
            r is Ok ==> exists|i: int| first_with_id(self.key_views(), key_id@, i),
    {
        let index = match find_key_id(&self.keys, key_id) {
            Some(i) => i,
            None => return Err(KeyError::UnknownKeyId(key_id.to_owned())),
        };
        let pinned = &self.keys[index];
        proof {
            assert(pinned@ == self.key_views()[index as int]);
            assert forall|i: int| first_with_id(self.key_views(), key_id@, i) implies i == index by {
                if i < index {
                } else if i > index {
                }
            }
        }
        if pinned.state == KeyState::Revoked {
            return Err(KeyError::RevokedKey(key_id.to_owned()));
        }
        pinned_verifying_key(pinned)
    }

    /// The first active key and its verifying key.
    pub fn active_key(&self) -> (r: Result<(&PinnedIssuerKey, VerifyingKey), KeyError>)
        ensures
            (forall|i: int| 0 <= i < self.keys@.len() ==> self.key_views()[i].state != KeyState::Active)
                ==> r matches Err(KeyError::NotExactlyOneActive),
            forall|i: int|
                first_active(self.key_views(), i) ==> match r {
                    Ok((pinned, key)) => pinned@ == self.key_views()[i] && pinned_key_result(
                        self.key_views()[i],
                        Ok(key),
                    ),
                    Err(e) => pinned_key_result(self.key_views()[i], Err(e)),
                },
    {
        let index = match find_active(&self.keys) {
            Some(i) => i,
            None => return Err(KeyError::NotExactlyOneActive),
        };
        let pinned = &self.keys[index];
        proof {
            assert(pinned@ == self.key_views()[index as int]);
            assert forall|i: int| first_active(self.key_views(), i) implies i == index by {
                if i < index {
                } else if i > index {
                }
            }
        }
        match pinned_verifying_key(pinned) {
            Ok(key) => Ok((pinned, key)),
            Err(e) => Err(e),
        }
    }
}

/// Store file version: leases carry the id of the key that signed them.
pub const STORE_VERSION: u32 = 2;

/// The earlier store file version, with a single implicit key: its leases
/// carry no key id, and such files still load.
pub const SINGLE_KEY_STORE_VERSION: u32 = 1;

/// A store file of this version loads.
pub open spec fn loadable_version(version: u32) -> bool {
    version == STORE_VERSION || version == SINGLE_KEY_STORE_VERSION
}

/// One recorded lease with its signature, signing key id (empty for the
/// single implicit key) and the agent's receive time (evidence only).
#[derive(Debug)]
pub struct StoredLease {
    pub payload: LeasePayload,
    pub signature: String,
    pub key_id: String,
    pub received_at: u64,
}

/// The content of a stored lease.
pub struct StoredView {
    pub payload: PayloadView,
    pub signature: Seq<char>,
    pub key_id: Seq<char>,
    pub received_at: u64,
}

impl View for StoredLease {
    type V = StoredView;

    open spec fn view(&self) -> StoredView {
        StoredView {
            payload: self.payload@,
            signature: self.signature@,
            key_id: self.key_id@,
            received_at: self.received_at,
        }
    }
}

impl StoredLease {
    /// A field-by-field copy.
    pub fn duplicate(&self) -> (r: StoredLease)
        ensures
            r@ == self@,
    {
        StoredLease {
            payload: self.payload.duplicate(),
            signature: self.signature.clone(),
            key_id: self.key_id.clone(),
            received_at: self.received_at,
        }
    }
}

/// The store file's content.
#[derive(Debug)]
pub struct StoreFile {
    pub version: u32,
    pub high_water_revocation_epoch: u64,
    pub leases: Vec<StoredLease>,
}

/// The lease store: the recorded leases and the revocation high-water mark.
#[derive(Debug)]
pub struct Store {
    file: StoreFile,
}

/// The content of a store.
pub struct StoreView {
    pub version: u32,
    pub high_water_revocation_epoch: u64,
    pub leases: Seq<StoredView>,
}

/// The views of a list of stored leases.
pub open spec fn stored_views(leases: Seq<StoredLease>) -> Seq<StoredView> {
    leases.map_values(|l: StoredLease| l@)
}

impl View for Store {
    type V = StoreView;

    closed spec fn view(&self) -> StoreView {
        StoreView {
            version: self.file.version,
            high_water_revocation_epoch: self.file.high_water_revocation_epoch,
            leases: stored_views(self.file.leases@),
        }
    }
}

/// The error a store file of an unsupported version is reported with.
#[verifier::external_body]
fn unsupported_version_error(version: u32) -> serde_json::Error {
    <serde_json::Error as serde::de::Error>::custom(format!("unsupported store version {}", version))
}

/// The lease is for the same (subject, device) pair as `p`.
pub open spec fn same_pair(l: StoredView, p: PayloadView) -> bool {
    l.payload.subject_id == p.subject_id && l.payload.device_id == p.device_id
}

/// The leases not for the (subject, device) pair of `p`, in order.
pub open spec fn without_pair(leases: Seq<StoredView>, p: PayloadView) -> Seq<StoredView>
    decreases leases.len(),
{
    if leases.len() == 0 {
        Seq::empty()
    } else if same_pair(leases.last(), p) {
        without_pair(leases.drop_last(), p)
    } else {
        without_pair(leases.drop_last(), p).push(leases.last())
    }
}

/// The lease is unexpired at `now` and grants `op`.
pub open spec fn usable(l: StoredView, now: u64, op: Operation) -> bool {
    l.payload.expires_at > now && grants(l.payload.operations, op)
}

/// `i` is the lease `active_lease` picks: usable, no usable lease expires
/// later, and no later usable lease expires at the same time.
pub open spec fn newest_usable(leases: Seq<StoredView>, now: u64, op: Operation, i: int) -> bool {
    &&& 0 <= i < leases.len()
    &&& usable(leases[i], now, op)
    &&& forall|j: int|
        #![trigger leases[j]]
        0 <= j < leases.len() && usable(leases[j], now, op) ==> leases[j].payload.expires_at
            <= leases[i].payload.expires_at && (j > i ==> leases[j].payload.expires_at
            < leases[i].payload.expires_at)
}

/// The lease's signature checks out with `issuer`.
pub open spec fn stored_signature_ok(l: StoredView, issuer: Seq<u8>) -> bool {
    signature_fault(l.signature, l.payload, issuer) is None
}

/// A lease passes the key-set check: an empty key id verifies with the
/// fallback key; otherwise the first pinned key with that id must exist,
/// not be revoked, parse, and verify the signature.
pub open spec fn lease_key_ok(l: StoredView, keys: Seq<PinnedView>, fallback: Seq<u8>) -> bool {
    if l.key_id.len() == 0 {
        stored_signature_ok(l, fallback)
    } else {
        exists|i: int|
            #[trigger] first_with_id(keys, l.key_id, i) && keys[i].state != KeyState::Revoked
                && (pinned_key_bytes(keys[i].public_key_hex) matches Some(bytes)
                && stored_signature_ok(l, bytes))
    }
}

impl Store {
    /// The store of a device that has recorded nothing yet.
    pub fn empty() -> (r: Store)
        ensures
            r@.version == STORE_VERSION,
            r@.high_water_revocation_epoch == 0,
            r@.leases.len() == 0,
    {
        Store { file: StoreFile { version: STORE_VERSION, high_water_revocation_epoch: 0, leases: Vec::new() } }
    }

    /// Accept a parsed store file of the current or the single-key version,
    /// with its mark and its leases; the store is kept as the current
    /// version from then on. Any other version is an error, never a silent
    /// reset.
    pub fn from_file(file: StoreFile) -> (r: Result<Store, StoreError>)
        ensures
            !loadable_version(file.version) ==> r matches Err(StoreError::Json(_)),
            loadable_version(file.version) ==> (r matches Ok(store) && store@.version == STORE_VERSION
                && store@.high_water_revocation_epoch == file.high_water_revocation_epoch
                && store@.leases == stored_views(file.leases@)),
    {
        if file.version != STORE_VERSION && file.version != SINGLE_KEY_STORE_VERSION {
            return Err(StoreError::Json(unsupported_version_error(file.version)));
        }
        Ok(
            Store {
                file: StoreFile {
                    version: STORE_VERSION,
                    high_water_revocation_epoch: file.high_water_revocation_epoch,
                    leases: file.leases,
                },
            },
        )
    }

    /// The file content to persist.
    pub fn file(&self) -> (r: &StoreFile)
        ensures
            r.version == self@.version,
            r.high_water_revocation_epoch == self@.high_water_revocation_epoch,
            stored_views(r.leases@) == self@.leases,
    {
        &self.file
    }

    pub fn high_water_revocation_epoch(&self) -> (r: u64)
        ensures
            r == self@.high_water_revocation_epoch,
    {
        self.file.high_water_revocation_epoch
    }

    pub fn lease_count(&self) -> (r: usize)
        ensures
            r == self@.leases.len(),
    {
        self.file.leases.len()
    }

    /// Verify every recorded lease against one issuer key, failing closed on
    /// the first bad signature (a file edited after recording still parses).
    pub fn verify_all(&self, issuer: &VerifyingKey) -> (r: Result<(), StoreError>)
        ensures
            r is Ok <==> forall|i: int|
                0 <= i < self@.leases.len() ==> stored_signature_ok(#[trigger] self@.leases[i], issuer@),
            r matches Err(e) ==> exists|i: int|
                0 <= i < self@.leases.len() && !stored_signature_ok(#[trigger] self@.leases[i], issuer@)
                    && (forall|j: int| 0 <= j < i ==> stored_signature_ok(self@.leases[j], issuer@))
                    && fault_reported(
                    signature_fault(self@.leases[i].signature, self@.leases[i].payload, issuer@)->0,
                    e,
                ),
    {
        let ghost views = self@.leases;
        let mut i: usize = 0;
        while i < self.file.leases.len()
            invariant
                views == self@.leases,
                views == stored_views(self.file.leases@),
                i <= views.len(),
                forall|j: int| 0 <= j < i ==> stored_signature_ok(#[trigger] views[j], issuer@),
            decreases views.len() - i,
        {
            let stored = &self.file.leases[i];
            assert(stored@ == views[i as int]);
            match check_signature(&stored.signature, &stored.payload, issuer) {
                Ok(()) => {},
                Err(e) => return Err(e),
            }
            i = i + 1;
        }
        Ok(())
    }

    /// Key-set aware verification: each lease is checked with the pinned
    /// key matching its key id (active and retiring keys verify, revoked and
    /// unknown ids fail closed); a lease without key id uses `fallback`.
    pub fn verify_all_with_key_set(&self, key_set: &IssuerKeySet, fallback: &VerifyingKey) -> (r:
        Result<(), KeyError>)
        ensures
            r is Ok <==> forall|i: int|
                0 <= i < self@.leases.len() ==> lease_key_ok(
                    #[trigger] self@.leases[i],
                    key_set.key_views(),
                    fallback@,
                ),
            r is Err ==> exists|i: int|
                0 <= i < self@.leases.len() && !lease_key_ok(
                    #[trigger] self@.leases[i],
                    key_set.key_views(),
                    fallback@,
                ) && forall|j: int| 0 <= j < i ==> lease_key_ok(self@.leases[j], key_set.key_views(), fallback@),
    {
        let ghost views = self@.leases;
        let ghost keys = key_set.key_views();
        let mut i: usize = 0;
        while i < self.file.leases.len()
            invariant
                views == self@.leases,
                views == stored_views(self.file.leases@),
                keys == key_set.key_views(),
                i <= views.len(),
                forall|j: int| 0 <= j < i ==> lease_key_ok(#[trigger] views[j], keys, fallback@),
            decreases views.len() - i,
        {
            let stored = &self.file.leases[i];
            assert(stored@ == views[i as int]);
            if stored.key_id.as_str().is_empty() {
                match check_signature(&stored.signature, &stored.payload, fallback) {
                    Ok(()) => {},
                    Err(e) => return Err(KeyError::Store(e)),
                }
            } else {
                let issuer = match key_set.verifying_key_for(stored.key_id.as_str()) {
                    Ok(k) => k,
                    Err(e) => {
                        proof {
                            if exists|k: int| first_with_id(keys, views[i as int].key_id, k) {
                                let k = choose|k: int| first_with_id(keys, views[i as int].key_id, k);
                                assert(first_with_id(keys, views[i as int].key_id, k));
                            }
                        }
                        return Err(e);
                    },
                };
                match check_signature(&stored.signature, &stored.payload, &issuer) {
                    Ok(()) => {
                        proof {
                            let k = choose|k: int| first_with_id(keys, views[i as int].key_id, k);
                            assert(first_with_id(keys, views[i as int].key_id, k));
                        }
                    },
                    Err(e) => {
                        proof {
                            if exists|k: int| first_with_id(keys, views[i as int].key_id, k) {
                                let k = choose|k: int| first_with_id(keys, views[i as int].key_id, k);
                                assert(first_with_id(keys, views[i as int].key_id, k));
                            }
                        }
                        return Err(KeyError::Store(e));
                    },
                }
            }
            i = i + 1;
        }
        Ok(())
    }
}


/// Why `record` refuses a lease.
pub enum Refusal {
    Signature(SignatureFault),
    Rollback,
    Expired,
}

/// The first reason, in order, `record` refuses `signed` at `now`.
pub open spec fn record_refusal(s: StoreView, signed: SignedView, issuer: Seq<u8>, now: u64) -> Option<
    Refusal,
> {
    match signature_fault(signed.signature, signed.payload, issuer) {
        Some(fault) => Some(Refusal::Signature(fault)),
        None => if signed.payload.revocation_epoch < s.high_water_revocation_epoch {
            Some(Refusal::Rollback)
        } else if signed.payload.expires_at <= now {
            Some(Refusal::Expired)
        } else {
            None
        },
    }
}

/// The error `record` reports for a refusal.
pub open spec fn refusal_reported(refusal: Refusal, s: StoreView, signed: SignedView, now: u64, e: RecordError) -> bool {
    match refusal {
        Refusal::Signature(fault) => e matches RecordError::Store(se) && fault_reported(fault, se),
        Refusal::Rollback => e matches RecordError::RollbackDetected { stored, incoming } && stored
            == s.high_water_revocation_epoch && incoming == signed.payload.revocation_epoch,
        Refusal::Expired => e matches RecordError::Expired { now: n, expires_at } && n == now
            && expires_at == signed.payload.expires_at,
    }
}

/// The store after `signed` is recorded at `now`: it replaces the leases
/// of its (subject, device) pair and raises the high-water mark.
pub open spec fn recorded(s: StoreView, signed: SignedView, now: u64) -> StoreView {
    StoreView {
        version: s.version,
        high_water_revocation_epoch: if signed.payload.revocation_epoch
            > s.high_water_revocation_epoch {
            signed.payload.revocation_epoch
        } else {
            s.high_water_revocation_epoch
        },
        leases: without_pair(s.leases, signed.payload).push(
            StoredView {
                payload: signed.payload,
                signature: signed.signature,
                key_id: signed.key_id,
                received_at: now,
            },
        ),
    }
}

/// The store after one `record` call with this lease, issuer key and time:
/// unchanged when refused, else the lease recorded.
pub open spec fn record_outcome(s: StoreView, attempt: (SignedView, Seq<u8>, u64)) -> StoreView {
    if record_refusal(s, attempt.0, attempt.1, attempt.2) is Some {
        s
    } else {
        recorded(s, attempt.0, attempt.2)
    }
}

/// The store after a sequence of `record` calls.
pub open spec fn record_run(s: StoreView, attempts: Seq<(SignedView, Seq<u8>, u64)>) -> StoreView
    decreases attempts.len(),
{
    if attempts.len() == 0 {
        s
    } else {
        record_outcome(record_run(s, attempts.drop_last()), attempts.last())
    }
}

/// The `i`th call of the sequence records its lease.
pub open spec fn accepted(s: StoreView, attempts: Seq<(SignedView, Seq<u8>, u64)>, i: int) -> bool {
    record_refusal(record_run(s, attempts.take(i)), attempts[i].0, attempts[i].1, attempts[i].2) is None
}

/// The store's invariants: no lease is above the high-water mark, and no
/// two leases share a (subject, device) pair.
pub open spec fn store_consistent(s: StoreView) -> bool {
    &&& forall|i: int|
        0 <= i < s.leases.len() ==> (#[trigger] s.leases[i]).payload.revocation_epoch
            <= s.high_water_revocation_epoch
    &&& forall|i: int, j: int|
        0 <= i < s.leases.len() && 0 <= j < s.leases.len() && i != j ==> !same_pair(
            #[trigger] s.leases[i],
            (#[trigger] s.leases[j]).payload,
        )
}

/// The leases kept when a lease for the pair of `p` is recorded.
fn leases_without_pair(leases: &Vec<StoredLease>, p: &LeasePayload) -> (r: Vec<StoredLease>)
    ensures
        stored_views(r@) == without_pair(stored_views(leases@), p@),
{
    let ghost views = stored_views(leases@);
    let mut out: Vec<StoredLease> = Vec::new();
    let mut i: usize = 0;
    while i < leases.len()
        invariant
            views == stored_views(leases@),
            i <= views.len(),
            stored_views(out@) == without_pair(views.subrange(0, i as int), p@),
        decreases views.len() - i,
    {
        let l = &leases[i];
        assert(l@ == views[i as int]);
        let ghost before = out@;
        proof {
            let next = views.subrange(0, i + 1);
            assert(next.drop_last() =~= views.subrange(0, i as int));
            assert(next.last() == views[i as int]);
        }
        let same = str_eq(l.payload.subject_id.as_str(), p.subject_id.as_str()) && str_eq(
            l.payload.device_id.as_str(),
            p.device_id.as_str(),
        );
        if !same {
            out.push(l.duplicate());
            assert(stored_views(out@) =~= stored_views(before).push(l@));
        }
        i = i + 1;
    }
    assert(views.subrange(0, views.len() as int) =~= views);
    out
}

impl Store {
    /// Verify and record a signed lease: the signature must check out,
    /// the incoming revocation epoch may not be older than the high-water
    /// mark, and the lease may not already be expired at `now`. The lease
    /// replaces any lease for the same (subject, device) pair, and the
    /// high-water mark rises to its epoch. A refused lease leaves the store
    /// unchanged. Persisting the result is the caller's I/O.
    pub fn record(&mut self, signed: &SignedLease, issuer: &VerifyingKey, now: u64) -> (r: Result<
        (),
        RecordError,
    >)
        ensures
            match record_refusal(old(self)@, signed@, issuer@, now) {
                Some(refusal) => r matches Err(e) && refusal_reported(
                    refusal,
                    old(self)@,
                    signed@,
                    now,
                    e,
                ),
                None => r is Ok,
            },
            r is Err ==> final(self)@ == old(self)@,
            r is Ok ==> final(self)@ == recorded(old(self)@, signed@, now),
            final(self)@ == record_outcome(old(self)@, (signed@, issuer@, now)),
    {
        let payload = match signed.verify(issuer) {
            Ok(p) => p,
            Err(e) => return Err(RecordError::Store(e)),
        };
        if payload.revocation_epoch < self.file.high_water_revocation_epoch {
            return Err(
                RecordError::RollbackDetected {
                    stored: self.file.high_water_revocation_epoch,
                    incoming: payload.revocation_epoch,
                },
            );
        }
        if payload.expires_at <= now {
            return Err(RecordError::Expired { now, expires_at: payload.expires_at });
        }
        let mut kept = leases_without_pair(&self.file.leases, payload);
        let ghost kept_views = stored_views(kept@);
        kept.push(
            StoredLease {
                payload: payload.duplicate(),
                signature: signed.signature.clone(),
                key_id: signed.key_id.clone(),
                received_at: now,
            },
        );
        assert(stored_views(kept@) =~= kept_views.push(
            StoredView {
                payload: signed@.payload,
                signature: signed@.signature,
                key_id: signed@.key_id,
                received_at: now,
            },
        ));
        self.file.leases = kept;
        if payload.revocation_epoch > self.file.high_water_revocation_epoch {
            self.file.high_water_revocation_epoch = payload.revocation_epoch;
        }
        Ok(())
    }

    /// The lease with the latest expiry among those unexpired at `now` that
    /// grant `operation` (the last such lease on a tie), if any.
    pub fn active_lease(&self, now: u64, operation: Operation) -> (r: Option<VerifiedLease<'_>>)
        ensures
            r is None <==> forall|i: int|
                0 <= i < self@.leases.len() ==> !usable(#[trigger] self@.leases[i], now, operation),
            r matches Some(lease) ==> exists|i: int|
                newest_usable(self@.leases, now, operation, i) && lease_shows(
                    lease,
                    self@.leases[i].payload,
                ),
    {
        let ghost views = self@.leases;
        let mut best: Option<usize> = None;
        let mut i: usize = 0;
        while i < self.file.leases.len()
            invariant
                views == self@.leases,
                views == stored_views(self.file.leases@),
                i <= views.len(),
                best is None ==> forall|j: int| 0 <= j < i ==> !usable(#[trigger] views[j], now, operation),
                best matches Some(b) ==> b < i && newest_usable(views.subrange(0, i as int), now, operation, b as int),
            decreases views.len() - i,
        {
            let l = &self.file.leases[i];
            assert(l@ == views[i as int]);
            let ghost prev = views.subrange(0, i as int);
            let ghost next = views.subrange(0, i + 1);
            if l.payload.expires_at > now && operations_contain(l.payload.operations.as_slice(), operation) {
                match best {
                    None => {
                        best = Some(i);
                        assert(newest_usable(next, now, operation, i as int)) by {
                            assert forall|j: int| 0 <= j < next.len() && usable(#[trigger] next[j], now, operation)
                                implies next[j].payload.expires_at <= next[i as int].payload.expires_at
                                && (j > i ==> next[j].payload.expires_at < next[i as int].payload.expires_at) by {
                                if j < i {
                                    assert(next[j] == views[j]);
                                }
                            }
                        }
                    },
                    Some(b) => {
                        if l.payload.expires_at >= self.file.leases[b].payload.expires_at {
                            assert(self.file.leases@[b as int]@ == views[b as int]);
                            best = Some(i);
                            assert(newest_usable(next, now, operation, i as int)) by {
                                assert forall|j: int| 0 <= j < next.len() && usable(#[trigger] next[j], now, operation)
                                    implies next[j].payload.expires_at <= next[i as int].payload.expires_at
                                    && (j > i ==> next[j].payload.expires_at < next[i as int].payload.expires_at) by {
                                    if j < i {
                                        assert(next[j] == prev[j]);
                                        assert(prev[b as int] == views[b as int]);
                                    }
                                }
                            }
                        } else {
                            assert(self.file.leases@[b as int]@ == views[b as int]);
                            assert(newest_usable(next, now, operation, b as int)) by {
                                assert forall|j: int| 0 <= j < next.len() && usable(#[trigger] next[j], now, operation)
                                    implies next[j].payload.expires_at <= next[b as int].payload.expires_at
                                    && (j > b ==> next[j].payload.expires_at < next[b as int].payload.expires_at) by {
                                    if j < i {
                                        assert(next[j] == prev[j]);
                                    }
                                }
                            }
                        }
                    },
                }
            } else {
                match best {
                    None => {},
                    Some(b) => {
                        assert(newest_usable(next, now, operation, b as int)) by {
                            assert forall|j: int| 0 <= j < next.len() && usable(#[trigger] next[j], now, operation)
                                implies next[j].payload.expires_at <= next[b as int].payload.expires_at
                                && (j > b ==> next[j].payload.expires_at < next[b as int].payload.expires_at) by {
                                if j < i {
                                    assert(next[j] == prev[j]);
                                }
                            }
                        }
                    },
                }
            }
            i = i + 1;
        }
        assert(views.subrange(0, views.len() as int) =~= views);
        match best {
            None => None,
            Some(b) => {
                assert(self.file.leases@[b as int]@ == views[b as int]);
                Some(self.file.leases[b].payload.verified_lease())
            },
        }
    }
}

/// Removing a pair's leases leaves none of that pair and never adds any.
pub proof fn lemma_without_pair(leases: Seq<StoredView>, p: PayloadView)
    ensures
        without_pair(leases, p).len() <= leases.len(),
        forall|i: int|
            0 <= i < without_pair(leases, p).len() ==> !same_pair(
                #[trigger] without_pair(leases, p)[i],
                p,
            ),
        forall|i: int|
            0 <= i < leases.len() && !same_pair(#[trigger] leases[i], p) ==> without_pair(
                leases,
                p,
            ).contains(leases[i]),
    decreases leases.len(),
{
    if leases.len() > 0 {
        let rest = leases.drop_last();
        lemma_without_pair(rest, p);
        assert forall|i: int| 0 <= i < leases.len() && !same_pair(#[trigger] leases[i], p) implies without_pair(
            leases,
            p,
        ).contains(leases[i]) by {
            if i < leases.len() - 1 {
                assert(leases[i] == rest[i]);
                let k = choose|k: int| 0 <= k < without_pair(rest, p).len() && without_pair(rest, p)[k] == rest[i];
                assert(without_pair(leases, p)[k] == leases[i]);
            } else {
                assert(without_pair(leases, p).last() == leases[i]);
            }
        }
    }
}

/// Recording never lowers the revocation high-water mark, and leaves it at
/// least at the recorded lease's epoch.
pub proof fn lemma_record_raises_high_water(s: StoreView, signed: SignedView, now: u64)
    ensures
        recorded(s, signed, now).high_water_revocation_epoch >= s.high_water_revocation_epoch,
        recorded(s, signed, now).high_water_revocation_epoch >= signed.payload.revocation_epoch,
{
}

/// Anti-rollback: once a lease with epoch `e` is recorded, a correctly
/// signed lease with an older epoch is refused as a rollback, whatever its
/// expiry (a badly signed one is refused for its signature first).
pub proof fn lemma_no_rollback_after_record(
    s: StoreView,
    first: SignedView,
    now: u64,
    second: SignedView,
    issuer: Seq<u8>,
    later: u64,
)
    requires
        signature_fault(second.signature, second.payload, issuer) is None,
        second.payload.revocation_epoch < first.payload.revocation_epoch,
    ensures
        record_refusal(recorded(s, first, now), second, issuer, later) == Some(Refusal::Rollback),
{
}

/// After recording, the store holds exactly one lease for the recorded
/// (subject, device) pair, the recorded one, and keeps every lease of other
/// pairs; the count grows by at most one.
pub proof fn lemma_record_replaces_pair(s: StoreView, signed: SignedView, now: u64)
    ensures
        recorded(s, signed, now).leases.last().payload == signed.payload,
        forall|i: int|
            0 <= i < recorded(s, signed, now).leases.len() - 1 ==> !same_pair(
                #[trigger] recorded(s, signed, now).leases[i],
                signed.payload,
            ),
        forall|i: int|
            0 <= i < s.leases.len() && !same_pair(#[trigger] s.leases[i], signed.payload)
                ==> recorded(s, signed, now).leases.contains(s.leases[i]),
        recorded(s, signed, now).leases.len() <= s.leases.len() + 1,
{
    lemma_without_pair(s.leases, signed.payload);
    let kept = without_pair(s.leases, signed.payload);
    let after = recorded(s, signed, now).leases;
    assert forall|i: int| 0 <= i < after.len() - 1 implies !same_pair(#[trigger] after[i], signed.payload) by {
        assert(after[i] == kept[i]);
    }
    assert forall|i: int| 0 <= i < s.leases.len() && !same_pair(#[trigger] s.leases[i], signed.payload)
        implies after.contains(s.leases[i]) by {
        let k = choose|k: int| 0 <= k < kept.len() && kept[k] == s.leases[i];
        assert(after[k] == s.leases[i]);
    }
}

/// What removing a pair keeps comes from the leases, and leases with
/// distinct pairs stay distinct.
proof fn lemma_without_pair_sub(leases: Seq<StoredView>, p: PayloadView)
    ensures
        forall|k: int|
            0 <= k < without_pair(leases, p).len() ==> leases.contains(
                #[trigger] without_pair(leases, p)[k],
            ),
        (forall|i: int, j: int|
            0 <= i < leases.len() && 0 <= j < leases.len() && i != j ==> !same_pair(
                #[trigger] leases[i],
                (#[trigger] leases[j]).payload,
            )) ==> (forall|i: int, j: int|
            0 <= i < without_pair(leases, p).len() && 0 <= j < without_pair(leases, p).len() && i
                != j ==> !same_pair(
                #[trigger] without_pair(leases, p)[i],
                (#[trigger] without_pair(leases, p)[j]).payload,
            )),
    decreases leases.len(),
{
    if leases.len() > 0 {
        let rest = leases.drop_last();
        lemma_without_pair_sub(rest, p);
        let w = without_pair(leases, p);
        let wr = without_pair(rest, p);
        assert forall|k: int| 0 <= k < w.len() implies leases.contains(#[trigger] w[k]) by {
            if k < wr.len() {
                assert(w[k] == wr[k]);
                let m = choose|m: int| 0 <= m < rest.len() && rest[m] == wr[k];
                assert(leases[m] == rest[m]);
            } else {
                assert(w[k] == leases.last());
                assert(leases[leases.len() - 1] == leases.last());
            }
        }
        if forall|i: int, j: int|
            0 <= i < leases.len() && 0 <= j < leases.len() && i != j ==> !same_pair(
                #[trigger] leases[i],
                (#[trigger] leases[j]).payload,
            ) {
            assert forall|i: int, j: int|
                0 <= i < rest.len() && 0 <= j < rest.len() && i != j implies !same_pair(
                #[trigger] rest[i],
                (#[trigger] rest[j]).payload,
            ) by {
                assert(rest[i] == leases[i] && rest[j] == leases[j]);
            }
            assert forall|i: int, j: int|
                0 <= i < w.len() && 0 <= j < w.len() && i != j implies !same_pair(
                #[trigger] w[i],
                (#[trigger] w[j]).payload,
            ) by {
                let n = leases.len() - 1;
                if i < wr.len() && j < wr.len() {
                    assert(w[i] == wr[i] && w[j] == wr[j]);
                } else if i < wr.len() {
                    assert(w[i] == wr[i] && w[j] == leases[n]);
                    let m = choose|m: int| 0 <= m < rest.len() && rest[m] == wr[i];
                    assert(leases[m] == wr[i]);
                    assert(!same_pair(leases[m], leases[n].payload));
                } else {
                    assert(w[j] == wr[j] && w[i] == leases[n]);
                    let m = choose|m: int| 0 <= m < rest.len() && rest[m] == wr[j];
                    assert(leases[m] == wr[j]);
                    assert(!same_pair(leases[n], leases[m].payload));
                }
            }
        }
    }
}

/// One `record` call keeps the store's invariants and never lowers the
/// high-water mark, whether it records or refuses.
pub proof fn lemma_record_keeps_consistency(s: StoreView, attempt: (SignedView, Seq<u8>, u64))
    requires
        store_consistent(s),
    ensures
        store_consistent(record_outcome(s, attempt)),
        record_outcome(s, attempt).high_water_revocation_epoch >= s.high_water_revocation_epoch,
{
    if record_refusal(s, attempt.0, attempt.1, attempt.2) is None {
        let p = attempt.0.payload;
        let after = recorded(s, attempt.0, attempt.2);
        let kept = without_pair(s.leases, p);
        lemma_without_pair(s.leases, p);
        lemma_without_pair_sub(s.leases, p);
        assert forall|i: int| 0 <= i < after.leases.len() implies (#[trigger] after.leases[i]).payload.revocation_epoch
            <= after.high_water_revocation_epoch by {
            if i < kept.len() {
                assert(after.leases[i] == kept[i]);
                assert(s.leases.contains(kept[i]));
            }
        }
        assert forall|i: int, j: int|
            0 <= i < after.leases.len() && 0 <= j < after.leases.len() && i != j implies !same_pair(
            #[trigger] after.leases[i],
            (#[trigger] after.leases[j]).payload,
        ) by {
            if i < kept.len() && j < kept.len() {
                assert(after.leases[i] == kept[i] && after.leases[j] == kept[j]);
            } else if i < kept.len() {
                assert(after.leases[i] == kept[i]);
                assert(!same_pair(kept[i], p));
            } else {
                assert(after.leases[j] == kept[j]);
                assert(!same_pair(kept[j], p));
            }
        }
    }
}

proof fn lemma_accepted_prefix(s: StoreView, attempts: Seq<(SignedView, Seq<u8>, u64)>)
    requires
        attempts.len() > 0,
    ensures
        forall|i: int|
            0 <= i < attempts.len() - 1 ==> (#[trigger] accepted(s, attempts, i) == accepted(
                s,
                attempts.drop_last(),
                i,
            ) && attempts.drop_last()[i] == attempts[i]),
        accepted(s, attempts, attempts.len() - 1) == record_refusal(
            record_run(s, attempts.drop_last()),
            attempts.last().0,
            attempts.last().1,
            attempts.last().2,
        ) is None,
        record_run(s, attempts) == record_outcome(record_run(s, attempts.drop_last()), attempts.last()),
{
    assert forall|i: int| 0 <= i < attempts.len() - 1 implies (#[trigger] accepted(s, attempts, i) == accepted(
        s,
        attempts.drop_last(),
        i,
    ) && attempts.drop_last()[i] == attempts[i]) by {
        assert(attempts.drop_last().take(i) =~= attempts.take(i));
    }
    assert(attempts.take(attempts.len() - 1) =~= attempts.drop_last());
}

proof fn lemma_run_consistent(s: StoreView, attempts: Seq<(SignedView, Seq<u8>, u64)>)
    requires
        store_consistent(s),
    ensures
        store_consistent(record_run(s, attempts)),
        record_run(s, attempts).high_water_revocation_epoch >= s.high_water_revocation_epoch,
    decreases attempts.len(),
{
    if attempts.len() > 0 {
        lemma_run_consistent(s, attempts.drop_last());
        lemma_record_keeps_consistency(record_run(s, attempts.drop_last()), attempts.last());
    }
}

proof fn lemma_run_high_water(s: StoreView, attempts: Seq<(SignedView, Seq<u8>, u64)>)
    ensures
        forall|i: int|
            0 <= i < attempts.len() && #[trigger] accepted(s, attempts, i)
                ==> attempts[i].0.payload.revocation_epoch <= record_run(
                s,
                attempts,
            ).high_water_revocation_epoch,
        record_run(s, attempts).high_water_revocation_epoch == s.high_water_revocation_epoch || exists|
            i: int,
        |
            0 <= i < attempts.len() && #[trigger] accepted(s, attempts, i)
                && attempts[i].0.payload.revocation_epoch == record_run(
                s,
                attempts,
            ).high_water_revocation_epoch,
    decreases attempts.len(),
{
    if attempts.len() > 0 {
        let n = attempts.len() - 1;
        let rest = attempts.drop_last();
        lemma_run_high_water(s, rest);
        lemma_accepted_prefix(s, attempts);
        let prev = record_run(s, rest);
        let after = record_run(s, attempts);
        let a = attempts.last();
        assert(attempts[n] == a);
        lemma_record_raises_high_water(prev, a.0, a.2);
        assert forall|i: int|
            0 <= i < attempts.len() && #[trigger] accepted(s, attempts, i)
                implies attempts[i].0.payload.revocation_epoch <= after.high_water_revocation_epoch by {
            if i < n {
                assert(accepted(s, rest, i));
            }
        }
        if after.high_water_revocation_epoch != s.high_water_revocation_epoch {
            if after.high_water_revocation_epoch != prev.high_water_revocation_epoch {
                assert(accepted(s, attempts, n));
            } else {
                let i = choose|i: int|
                    0 <= i < rest.len() && #[trigger] accepted(s, rest, i)
                        && rest[i].0.payload.revocation_epoch == prev.high_water_revocation_epoch;
                assert(accepted(s, attempts, i));
            }
        }
    }
}

proof fn lemma_run_origin(s: StoreView, attempts: Seq<(SignedView, Seq<u8>, u64)>)
    ensures
        forall|k: int|
            0 <= k < record_run(s, attempts).leases.len() ==> s.leases.contains(
                #[trigger] record_run(s, attempts).leases[k],
            ) || exists|i: int|
                0 <= i < attempts.len() && #[trigger] accepted(s, attempts, i)
                    && record_run(s, attempts).leases[k].payload == attempts[i].0.payload,
    decreases attempts.len(),
{
    if attempts.len() > 0 {
        let n = attempts.len() - 1;
        let rest = attempts.drop_last();
        lemma_run_origin(s, rest);
        lemma_accepted_prefix(s, attempts);
        let prev = record_run(s, rest);
        let after = record_run(s, attempts);
        let a = attempts.last();
        assert(attempts[n] == a);
        let kept = without_pair(prev.leases, a.0.payload);
        lemma_without_pair_sub(prev.leases, a.0.payload);
        assert forall|k: int| 0 <= k < after.leases.len() implies s.leases.contains(
            #[trigger] after.leases[k],
        ) || exists|i: int|
            0 <= i < attempts.len() && #[trigger] accepted(s, attempts, i)
                && after.leases[k].payload == attempts[i].0.payload by {
            let m: int = if record_refusal(prev, a.0, a.1, a.2) is Some {
                k
            } else if k < kept.len() {
                choose|m: int| 0 <= m < prev.leases.len() && prev.leases[m] == kept[k]
            } else {
                -1
            };
            if m < 0 {
                assert(accepted(s, attempts, n));
            } else {
                if record_refusal(prev, a.0, a.1, a.2) is None {
                    assert(after.leases[k] == kept[k]);
                    assert(prev.leases.contains(kept[k]));
                }
                assert(after.leases[k] == prev.leases[m]);
                if !s.leases.contains(prev.leases[m]) {
                    let i = choose|i: int|
                        0 <= i < rest.len() && #[trigger] accepted(s, rest, i)
                            && prev.leases[m].payload == rest[i].0.payload;
                    assert(accepted(s, attempts, i));
                }
            }
        }
    }
}

proof fn lemma_pair_kept_step(prev: StoreView, a: (SignedView, Seq<u8>, u64), q: PayloadView, k: int)
    requires
        0 <= k < prev.leases.len(),
        same_pair(prev.leases[k], q),
    ensures
        exists|j: int|
            0 <= j < record_outcome(prev, a).leases.len() && same_pair(
                #[trigger] record_outcome(prev, a).leases[j],
                q,
            ),
{
    let after = record_outcome(prev, a);
    if record_refusal(prev, a.0, a.1, a.2) is Some {
        assert(same_pair(after.leases[k], q));
    } else {
        let p = a.0.payload;
        let last = after.leases.len() - 1;
        lemma_without_pair(prev.leases, p);
        if same_pair(prev.leases[k], p) {
            assert(same_pair(after.leases[last], q));
        } else {
            let w = without_pair(prev.leases, p);
            assert(w.contains(prev.leases[k]));
            let j = choose|j: int| 0 <= j < w.len() && w[j] == prev.leases[k];
            assert(after.leases[j] == w[j]);
            assert(same_pair(after.leases[j], q));
        }
    }
}

proof fn lemma_run_pairs_kept(s: StoreView, attempts: Seq<(SignedView, Seq<u8>, u64)>)
    ensures
        forall|i: int|
            0 <= i < attempts.len() && #[trigger] accepted(s, attempts, i) ==> exists|k: int|
                0 <= k < record_run(s, attempts).leases.len() && same_pair(
                    #[trigger] record_run(s, attempts).leases[k],
                    attempts[i].0.payload,
                ),
    decreases attempts.len(),
{
    if attempts.len() > 0 {
        let n = attempts.len() - 1;
        let rest = attempts.drop_last();
        lemma_run_pairs_kept(s, rest);
        lemma_accepted_prefix(s, attempts);
        let prev = record_run(s, rest);
        let a = attempts.last();
        assert(attempts[n] == a);
        assert forall|i: int| 0 <= i < attempts.len() && #[trigger] accepted(s, attempts, i) implies exists|
            k: int,
        |
            0 <= k < record_run(s, attempts).leases.len() && same_pair(
                #[trigger] record_run(s, attempts).leases[k],
                attempts[i].0.payload,
            ) by {
            if i == n {
                let after = recorded(prev, a.0, a.2);
                assert(same_pair(after.leases[after.leases.len() - 1], a.0.payload));
            } else {
                assert(accepted(s, rest, i));
                let k = choose|k: int|
                    0 <= k < prev.leases.len() && same_pair(#[trigger] prev.leases[k], rest[i].0.payload);
                lemma_pair_kept_step(prev, a, attempts[i].0.payload, k);
            }
        }
    }
}

/// Any sequence of `record` calls keeps the store's invariants (every
/// lease at or below the high-water mark, one lease per (subject, device)
/// pair). The mark never decreases; it is the largest of its start and the
/// epochs of the recorded leases. Every stored lease was there at the start
/// or was recorded, and every pair recorded keeps a lease. From the empty
/// store, the stored leases are thus one per distinct pair recorded.
pub proof fn lemma_record_run(s: StoreView, attempts: Seq<(SignedView, Seq<u8>, u64)>)
    requires
        store_consistent(s),
    ensures
        store_consistent(record_run(s, attempts)),
        record_run(s, attempts).high_water_revocation_epoch >= s.high_water_revocation_epoch,
        forall|i: int|
            0 <= i < attempts.len() && #[trigger] accepted(s, attempts, i)
                ==> attempts[i].0.payload.revocation_epoch <= record_run(
                s,
                attempts,
            ).high_water_revocation_epoch,
        record_run(s, attempts).high_water_revocation_epoch == s.high_water_revocation_epoch || exists|
            i: int,
        |
            0 <= i < attempts.len() && #[trigger] accepted(s, attempts, i)
                && attempts[i].0.payload.revocation_epoch == record_run(
                s,
                attempts,
            ).high_water_revocation_epoch,
        forall|k: int|
            0 <= k < record_run(s, attempts).leases.len() ==> s.leases.contains(
                #[trigger] record_run(s, attempts).leases[k],
            ) || exists|i: int|
                0 <= i < attempts.len() && #[trigger] accepted(s, attempts, i)
                    && record_run(s, attempts).leases[k].payload == attempts[i].0.payload,
        forall|i: int|
            0 <= i < attempts.len() && #[trigger] accepted(s, attempts, i) ==> exists|k: int|
                0 <= k < record_run(s, attempts).leases.len() && same_pair(
                    #[trigger] record_run(s, attempts).leases[k],
                    attempts[i].0.payload,
                ),
{
    lemma_run_consistent(s, attempts);
    lemma_run_high_water(s, attempts);
    lemma_run_origin(s, attempts);
    lemma_run_pairs_kept(s, attempts);
}

/// The empty store is consistent, so every sequence of `record` calls from
/// it keeps the invariants of `lemma_record_run`.
pub proof fn lemma_empty_store_consistent(s: StoreView)
    requires
        s.leases.len() == 0,
    ensures
        store_consistent(s),
{
}

/// Recording replaces only the lease of the same person on the same
/// device: every stored lease whose subject or whose device differs from
/// the recorded payload's is kept, and no lease but the recorded one has
/// both its subject and its device.
pub proof fn lemma_record_keeps_other_people_and_devices(s: StoreView, signed: SignedView, now: u64)
    ensures
        forall|i: int|
            0 <= i < s.leases.len() && ((#[trigger] s.leases[i]).payload.subject_id
                != signed.payload.subject_id || s.leases[i].payload.device_id != signed.payload.device_id)
                ==> recorded(s, signed, now).leases.contains(s.leases[i]),
        forall|i: int|
            0 <= i < recorded(s, signed, now).leases.len() - 1 ==> ((#[trigger] recorded(
                s,
                signed,
                now,
            ).leases[i]).payload.subject_id != signed.payload.subject_id || recorded(
                s,
                signed,
                now,
            ).leases[i].payload.device_id != signed.payload.device_id),
{
    lemma_record_replaces_pair(s, signed, now);
}

/// A recorded lease is usable for each operation it grants until it
/// expires, so `active_lease` then finds a lease.
pub proof fn lemma_recorded_lease_usable(
    s: StoreView,
    signed: SignedView,
    now: u64,
    op: Operation,
    at: u64,
)
    requires
        grants(signed.payload.operations, op),
        at < signed.payload.expires_at,
    ensures
        usable(recorded(s, signed, now).leases.last(), at, op),
        exists|i: int|
            0 <= i < recorded(s, signed, now).leases.len() && usable(
                #[trigger] recorded(s, signed, now).leases[i],
                at,
                op,
            ),
{
    let after = recorded(s, signed, now).leases;
    assert(usable(after[after.len() - 1], at, op));
}

/// What the text of a store error says: its fixed words, the whole text
/// where the error is the store's own; the outside library writes the rest.
pub open spec fn store_error_message(e: StoreError, m: Seq<char>) -> bool {
    match e {
        StoreError::Io(_) => has_prefix(m, "store I/O: "@),
        StoreError::Json(_) => has_prefix(m, "store JSON: "@),
        StoreError::Hex(_) => has_prefix(m, "hex signature: "@),
        StoreError::Signature(_) => has_prefix(m, "bad ed25519 signature: "@),
        StoreError::BadKeyLength(n) => m == "issuer key must be 32 bytes, got "@ + decimal_chars(n as nat),
    }
}

/// The text of a rollback refusal.
pub open spec fn rollback_message(stored: u64, incoming: u64) -> Seq<char> {
    "rollback detected: stored revocation epoch "@ + decimal_chars(stored as nat) + " is newer than incoming "@
        + decimal_chars(incoming as nat)
}

/// The text of an expiry refusal.
pub open spec fn expired_message(now: u64, expires_at: u64) -> Seq<char> {
    "lease already expired at record time (now "@ + decimal_chars(now as nat) + ", expires_at "@
        + decimal_chars(expires_at as nat) + ")"@
}

/// What the text of a record error says.
pub open spec fn record_error_message(e: RecordError, m: Seq<char>) -> bool {
    match e {
        RecordError::Store(se) => store_error_message(se, m),
        RecordError::RollbackDetected { stored, incoming } => m == rollback_message(stored, incoming),
        RecordError::Expired { now, expires_at } => m == expired_message(now, expires_at),
    }
}

/// What the text of a key error says; the outside library's errors are
/// written by it alone.
pub open spec fn key_error_message(e: KeyError, m: Seq<char>) -> bool {
    match e {
        KeyError::UnknownKeyId(id) => m == "unknown key_id "@ + id@ + ": not in the pinned set"@,
        KeyError::RevokedKey(id) => m == "key "@ + id@ + " is revoked"@,
        KeyError::NotExactlyOneActive => m == "key set must contain exactly one active key"@,
        KeyError::KeyIdMismatch { key_id } => m == "key_id "@ + key_id@
            + " does not match a SHA-256 of the public key"@,
        KeyError::Store(se) => store_error_message(se, m),
        _ => true,
    }
}

/// The text of a store error.
pub fn store_error_text(e: &StoreError) -> (r: String)
    ensures
        store_error_message(*e, r@),
{
    match e {
        StoreError::Io(inner) => {
            let mut m = "store I/O: ".to_owned();
            let t = inner.to_string();
            m.append(t.as_str());
            proof {
                lemma_has_prefix_concat("store I/O: "@, t@);
            }
            m
        },
        StoreError::Json(inner) => {
            let mut m = "store JSON: ".to_owned();
            let t = inner.to_string();
            m.append(t.as_str());
            proof {
                lemma_has_prefix_concat("store JSON: "@, t@);
            }
            m
        },
        StoreError::Hex(inner) => {
            let mut m = "hex signature: ".to_owned();
            let t = inner.to_string();
            m.append(t.as_str());
            proof {
                lemma_has_prefix_concat("hex signature: "@, t@);
            }
            m
        },
        StoreError::Signature(inner) => {
            let mut m = "bad ed25519 signature: ".to_owned();
            let t = inner.to_string();
            m.append(t.as_str());
            proof {
                lemma_has_prefix_concat("bad ed25519 signature: "@, t@);
            }
            m
        },
        StoreError::BadKeyLength(n) => {
            let mut m = "issuer key must be 32 bytes, got ".to_owned();
            push_decimal_text(&mut m, *n as u64);
            m
        },
    }
}

/// The text of a record error.
pub fn record_error_text(e: &RecordError) -> (r: String)
    ensures
        record_error_message(*e, r@),
{
    match e {
        RecordError::Store(se) => store_error_text(se),
        RecordError::RollbackDetected { stored, incoming } => {
            let mut m = "rollback detected: stored revocation epoch ".to_owned();
            push_decimal_text(&mut m, *stored);
            m.append(" is newer than incoming ");
            push_decimal_text(&mut m, *incoming);
            m
        },
        RecordError::Expired { now, expires_at } => {
            let mut m = "lease already expired at record time (now ".to_owned();
            push_decimal_text(&mut m, *now);
            m.append(", expires_at ");
            push_decimal_text(&mut m, *expires_at);
            m.append(")");
            m
        },
    }
}

/// The text of a key error.
pub fn key_error_text(e: &KeyError) -> (r: String)
    ensures
        key_error_message(*e, r@),
{
    match e {
        KeyError::UnknownKeyId(id) => {
            let mut m = "unknown key_id ".to_owned();
            m.append(id.as_str());
            m.append(": not in the pinned set");
            m
        },
        KeyError::RevokedKey(id) => {
            let mut m = "key ".to_owned();
            m.append(id.as_str());
            m.append(" is revoked");
            m
        },
        KeyError::NotExactlyOneActive => "key set must contain exactly one active key".to_owned(),
        KeyError::KeyIdMismatch { key_id } => {
            let mut m = "key_id ".to_owned();
            m.append(key_id.as_str());
            m.append(" does not match a SHA-256 of the public key");
            m
        },
        KeyError::Io(inner) => inner.to_string(),
        KeyError::Json(inner) => inner.to_string(),
        KeyError::Hex(inner) => inner.to_string(),
        KeyError::Store(se) => store_error_text(se),
    }
}

} // verus!
