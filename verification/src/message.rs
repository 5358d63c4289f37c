//! The life cycle of a message that an outside signer signs: a draft, the
//! hash to sign, the signature, the signed message.

use vstd::prelude::*;
use crate::address::{address_value, is_address_text, Address, AddressModel};
use crate::codec::{encode, encoded_values};
use crate::crypto::{checked_public_key, extend_with_signature_id, hash_bytes, parse_public_key, sha256_digest, signing_payload};
use crate::schema::{raws_view, resolve_schema, resolved_schema, RawParam, RawParamModel};
use crate::error::{BridgeError, ErrorModel};
use crate::text::copy_range;
use crate::types::{ParamModel, ParameterSchema};
use crate::value::{values_view, HostModel, HostValue, StrictValue, ValueModel};

verus! {

/// When a message expires: at an instant, or a number of seconds after the
/// instant at which its draft is built. Instants are seconds.
#[derive(Clone, Copy, Debug, PartialEq, Eq)]
pub enum MessageExpiration {
    At(u64),
    Timeout(u32),
}

/// The instant at which a message built at `now` expires. An instant past
/// the largest one is the largest one.
pub open spec fn expiration_instant(policy: MessageExpiration, now: u64) -> u64 {
    match policy {
        MessageExpiration::At(instant) => instant,
        MessageExpiration::Timeout(seconds) => if now + seconds > u64::MAX {
            u64::MAX
        } else {
            (now + seconds) as u64
        },
    }
}

/// Whether a message that expires at `expire_at` has expired at `now`: the
/// instant has elapsed.
pub open spec fn has_expired(expire_at: u64, now: u64) -> bool {
    now > expire_at
}

/// A message built without delay expires as soon as the clock advances.
pub proof fn lemma_zero_timeout_expires(built_at: u64, now: u64)
    requires
        now > built_at,
    ensures
        has_expired(expiration_instant(MessageExpiration::Timeout(0), built_at), now),
        !has_expired(expiration_instant(MessageExpiration::Timeout(0), built_at), built_at),
{
}

/// What deploys a contract: the program and the cell of its persistent
/// state, which starts with the 32 bytes of the owner's public key.
#[derive(Debug, PartialEq, Eq)]
pub struct DeployPayload {
    pub code: Vec<u8>,
    pub data: Vec<u8>,
}

/// A `DeployPayload` as a mathematical value.
pub struct DeployModel {
    pub code: Seq<u8>,
    pub data: Seq<u8>,
}

impl View for DeployPayload {
    type V = DeployModel;

    open spec fn view(&self) -> DeployModel {
        DeployModel { code: self.code@, data: self.data@ }
    }
}

/// The view of a payload that may be absent.
pub open spec fn deploy_view(deploy: Option<DeployPayload>) -> Option<DeployModel> {
    match deploy {
        Some(payload) => Some(payload@),
        None => None,
    }
}

/// Where a message stands in its life cycle.
#[derive(Clone, Copy, Debug, PartialEq, Eq, Structural)]
pub enum DraftState {
    /// Built; the body is not serialized yet.
    Draft,
    /// The body is there and the hash to sign is known.
    HashReady,
    /// The signature is in place.
    Signed,
    /// A step came after the expiration instant. Nothing follows.
    Expired,
}

/// The number of bytes of a signature.
pub open spec fn signature_length() -> nat {
    64
}

/// The body with the slot of the signature filled with zeros.
pub open spec fn unsigned_body(body: Seq<u8>) -> Seq<u8> {
    Seq::new(signature_length(), |i: int| 0u8) + body
}

/// The hash that a signature of the message must cover: the digest of the
/// unsigned body, extended with the signature domain where one is
/// configured.
pub open spec fn signing_hash(body: Seq<u8>, signature_id: Option<i32>) -> Seq<u8> {
    sha256_digest(signing_payload(unsigned_body(body), signature_id))
}

/// The body with the signature in its slot.
pub open spec fn signed_body(signature: Seq<u8>, body: Seq<u8>) -> Seq<u8> {
    signature + body
}

/// The persistent state with the public key at its start replaced.
pub open spec fn with_public_key(data: Seq<u8>, key: Seq<u8>) -> Seq<u8> {
    key + data.skip(32)
}

/// A message on its way to being signed. It is built from validated values,
/// changed only by the steps of its life cycle, and consumed by the last.
#[derive(Debug)]
pub struct UnsignedMessageDraft {
    destination: Address,
    deploy: Option<DeployPayload>,
    values: Vec<StrictValue>,
    body: Vec<u8>,
    expire_at: u64,
    public_key: Option<Vec<u8>>,
    signature_id: Option<i32>,
    hash: Vec<u8>,
    signature: Vec<u8>,
    state: DraftState,
}

/// An `UnsignedMessageDraft` as a mathematical value.
pub struct DraftModel {
    pub destination: AddressModel,
    pub deploy: Option<DeployModel>,
    pub values: Seq<ValueModel>,
    pub body: Seq<u8>,
    pub expire_at: u64,
    pub public_key: Option<Seq<u8>>,
    pub signature_id: Option<i32>,
    pub hash: Seq<u8>,
    pub signature: Seq<u8>,
    pub state: DraftState,
}

impl DraftModel {
    /// Whether the life cycle of the draft is over at `now`: the draft is
    /// `Expired`, or its expiration instant has elapsed.
    pub open spec fn is_over(self, now: u64) -> bool {
        self.state == DraftState::Expired || has_expired(self.expire_at, now)
    }

    /// The draft after a request that came too late: `Expired`, and nothing
    /// else changed.
    pub open spec fn expired(self) -> DraftModel {
        DraftModel { state: DraftState::Expired, ..self }
    }

    /// Whether the draft holds what its state promises: from `HashReady` on
    /// the hash is the hash to sign of the body, and a signed draft holds a
    /// signature of 64 bytes.
    pub open spec fn wf(self) -> bool {
        &&& (self.state == DraftState::HashReady || self.state == DraftState::Signed)
            ==> self.hash == signing_hash(self.body, self.signature_id)
        &&& self.state == DraftState::Signed ==> self.signature.len() == signature_length()
    }
}

impl View for UnsignedMessageDraft {
    type V = DraftModel;

    closed spec fn view(&self) -> DraftModel {
        DraftModel {
            destination: self.destination@,
            deploy: deploy_view(self.deploy),
            values: values_view(self.values@),
            body: self.body@,
            expire_at: self.expire_at,
            public_key: key_view(self.public_key),
            signature_id: self.signature_id,
            hash: self.hash@,
            signature: self.signature@,
            state: self.state,
        }
    }
}

/// A signed message: the bytes of its body with the signature in place, what
/// deploys the contract, where it goes, and the instant it was signed
/// against.
#[derive(Debug, PartialEq, Eq)]
pub struct SignedMessageResult {
    pub destination: Address,
    pub deploy: Option<DeployPayload>,
    pub bytes: Vec<u8>,
    pub expire_at: u64,
}

/// The draft that building gives.
///
/// The destination must be an address, else `InvalidAddress`. The input must
/// encode against the schema, else the codec's error. The expiration instant
/// is resolved once, against `now`; where it has elapsed already, the result
/// is `MessageExpired` with that instant. The draft starts in the state
/// `Draft`, without body or hash, and the place of the signer's public key
/// is empty.
pub open spec fn built_draft(
    destination: Seq<char>,
    deploy: Option<DeployModel>,
    schema: Seq<ParamModel>,
    input: HostModel,
    expiration: MessageExpiration,
    signature_id: Option<i32>,
    now: u64,
) -> Result<DraftModel, ErrorModel> {
    if !is_address_text(destination) {
        Err(ErrorModel::InvalidAddress)
    } else {
        match encoded_values(schema, input) {
            Err(e) => Err(e),
            Ok(values) => if has_expired(expiration_instant(expiration, now), now) {
                Err(ErrorModel::MessageExpired(expiration_instant(expiration, now) as nat))
            } else {
                Ok(
                    DraftModel {
                        destination: address_value(destination),
                        deploy,
                        values,
                        body: Seq::empty(),
                        expire_at: expiration_instant(expiration, now),
                        public_key: None,
                        signature_id,
                        hash: Seq::empty(),
                        signature: Seq::empty(),
                        state: DraftState::Draft,
                    },
                )
            },
        }
    }
}

/// Idempotence: two drafts built from the same inputs at the same instant
/// are the same draft, and the same body gives both the same hash to sign.
pub proof fn lemma_building_is_idempotent(
    destination: Seq<char>,
    deploy: Option<DeployModel>,
    schema: Seq<ParamModel>,
    input: HostModel,
    expiration: MessageExpiration,
    signature_id: Option<i32>,
    now: u64,
    first: DraftModel,
    second: DraftModel,
    body: Seq<u8>,
)
    requires
        built_draft(destination, deploy, schema, input, expiration, signature_id, now) == Ok::<
            DraftModel,
            ErrorModel,
        >(first),
        built_draft(destination, deploy, schema, input, expiration, signature_id, now) == Ok::<
            DraftModel,
            ErrorModel,
        >(second),
    ensures
        first == second,
        signing_hash(body, first.signature_id) == signing_hash(body, second.signature_id),
        first.expire_at == expiration_instant(expiration, now),
{
}

/// Resolves an expiration policy against the clock.
pub fn resolve_expiration(policy: MessageExpiration, now: u64) -> (r: u64)
    ensures
        r == expiration_instant(policy, now),
{
    match policy {
        MessageExpiration::At(instant) => instant,
        MessageExpiration::Timeout(seconds) => now.saturating_add(seconds as u64),
    }
}

/// Builds the draft of a message to `destination` that calls with the given
/// input. Building the same draft twice at the same instant gives the same
/// draft, and so the same hash to sign.
pub fn build_unsigned_message(
    destination: &str,
    deploy: Option<DeployPayload>,
    schema: &ParameterSchema,
    input: &HostValue,
    expiration: MessageExpiration,
    signature_id: Option<i32>,
    now: u64,
) -> (r: Result<UnsignedMessageDraft, BridgeError>)
    ensures
        match r {
            Ok(draft) => built_draft(
                destination@,
                deploy_view(deploy),
                schema@,
                input@,
                expiration,
                signature_id,
                now,
            ) == Ok::<DraftModel, ErrorModel>(draft@),
            Err(e) => built_draft(
                destination@,
                deploy_view(deploy),
                schema@,
                input@,
                expiration,
                signature_id,
                now,
            ) == Err::<DraftModel, ErrorModel>(e@),
        },
{
    let address = match Address::parse(destination) {
        Ok(address) => address,
        Err(e) => {
            return Err(e);
        },
    };
    let values = match encode(schema, input) {
        Ok(values) => values,
        Err(e) => {
            return Err(e);
        },
    };
    let expire_at = resolve_expiration(expiration, now);
    if now > expire_at {
        return Err(BridgeError::MessageExpired(expire_at));
    }
    Ok(
        UnsignedMessageDraft {
            destination: address,
            deploy,
            values,
            body: Vec::new(),
            expire_at,
            public_key: None,
            signature_id,
            hash: Vec::new(),
            signature: Vec::new(),
            state: DraftState::Draft,
        },
    )
}

/// The draft of a call that the owner of a public key will sign.
///
/// The schema description must resolve, else `SchemaParseError`; then the
/// draft is built as `built_draft` says, the message expiring `timeout`
/// seconds after `now`; then the text must be a public key, which takes its
/// place in the draft.
pub open spec fn created_message(
    destination: Seq<char>,
    deploy: Option<DeployModel>,
    params: Seq<RawParamModel>,
    input: HostModel,
    public_key: Seq<char>,
    timeout: u32,
    signature_id: Option<i32>,
    now: u64,
) -> Result<DraftModel, ErrorModel> {
    match resolved_schema(params) {
        Err(e) => Err(e),
        Ok(schema) => match built_draft(
            destination,
            deploy,
            schema,
            input,
            MessageExpiration::Timeout(timeout),
            signature_id,
            now,
        ) {
            Err(e) => Err(e),
            Ok(draft) => match checked_public_key(public_key) {
                Err(e) => Err(e),
                Ok(key) => Ok(DraftModel { public_key: Some(key), ..draft }),
            },
        },
    }
}

/// The draft of a call that nobody signs: as `created_message`, without a
/// public key and without a signature domain.
pub open spec fn created_message_without_signature(
    destination: Seq<char>,
    deploy: Option<DeployModel>,
    params: Seq<RawParamModel>,
    input: HostModel,
    timeout: u32,
    now: u64,
) -> Result<DraftModel, ErrorModel> {
    match resolved_schema(params) {
        Err(e) => Err(e),
        Ok(schema) => built_draft(
            destination,
            deploy,
            schema,
            input,
            MessageExpiration::Timeout(timeout),
            None,
            now,
        ),
    }
}

/// Builds the draft of a message that calls a method with the given input
/// and waits for the signature of the owner of the public key.
pub fn create_external_message(
    destination: &str,
    deploy: Option<DeployPayload>,
    params: &Vec<RawParam>,
    input: &HostValue,
    public_key: &str,
    timeout: u32,
    signature_id: Option<i32>,
    now: u64,
) -> (r: Result<UnsignedMessageDraft, BridgeError>)
    ensures
        match r {
            Ok(draft) => created_message(
                destination@,
                deploy_view(deploy),
                raws_view(params@),
                input@,
                public_key@,
                timeout,
                signature_id,
                now,
            ) == Ok::<DraftModel, ErrorModel>(draft@),
            Err(e) => created_message(
                destination@,
                deploy_view(deploy),
                raws_view(params@),
                input@,
                public_key@,
                timeout,
                signature_id,
                now,
            ) == Err::<DraftModel, ErrorModel>(e@),
        },
{
    let schema = match resolve_schema(params) {
        Ok(schema) => schema,
        Err(e) => {
            return Err(e);
        },
    };
    let mut draft = match build_unsigned_message(
        destination,
        deploy,
        &schema,
        input,
        MessageExpiration::Timeout(timeout),
        signature_id,
        now,
    ) {
        Ok(draft) => draft,
        Err(e) => {
            return Err(e);
        },
    };
    match parse_public_key(public_key) {
        Ok(key) => {
            draft.public_key = Some(key);
            Ok(draft)
        },
        Err(e) => Err(e),
    }
}

/// Builds the draft of a message that calls a method with the given input
/// and carries no signature.
pub fn create_external_message_without_signature(
    destination: &str,
    deploy: Option<DeployPayload>,
    params: &Vec<RawParam>,
    input: &HostValue,
    timeout: u32,
    now: u64,
) -> (r: Result<UnsignedMessageDraft, BridgeError>)
    ensures
        match r {
            Ok(draft) => created_message_without_signature(
                destination@,
                deploy_view(deploy),
                raws_view(params@),
                input@,
                timeout,
                now,
            ) == Ok::<DraftModel, ErrorModel>(draft@),
            Err(e) => created_message_without_signature(
                destination@,
                deploy_view(deploy),
                raws_view(params@),
                input@,
                timeout,
                now,
            ) == Err::<DraftModel, ErrorModel>(e@),
        },
{
    match resolve_schema(params) {
        Ok(schema) => build_unsigned_message(
            destination,
            deploy,
            &schema,
            input,
            MessageExpiration::Timeout(timeout),
            None,
            now,
        ),
        Err(e) => Err(e),
    }
}

/// A message with a body that is given as it stands: the destination must
/// be an address, else `InvalidAddress`; the body, the deploy payload and the
/// expiration instant are taken over.
pub fn create_raw_external_message(
    destination: &str,
    deploy: Option<DeployPayload>,
    body: Vec<u8>,
    expire_at: u64,
) -> (r: Result<SignedMessageResult, BridgeError>)
    ensures
        is_address_text(destination@) ==> (r matches Ok(message) && message@ == (SignedModel {
            destination: address_value(destination@),
            deploy: deploy_view(deploy),
            bytes: body@,
            expire_at,
        })),
        !is_address_text(destination@) ==> (r matches Err(e) && e@ == ErrorModel::InvalidAddress),
{
    match Address::parse(destination) {
        Ok(address) => Ok(SignedMessageResult { destination: address, deploy, bytes: body, expire_at }),
        Err(e) => Err(e),
    }
}

impl UnsignedMessageDraft {
    #[verifier::type_invariant]
    spec fn inv(self) -> bool {
        self@.wf()
    }

    /// Where the message stands. Every draft holds what its state
    /// promises.
    pub fn state(&self) -> (r: DraftState)
        ensures
            r == self@.state,
            self@.wf(),
    {
        proof {
            use_type_invariant(self);
        }
        self.state
    }

    /// The instant at which the message expires.
    pub fn expire_at(&self) -> (r: u64)
        ensures
            r == self@.expire_at,
    {
        self.expire_at
    }

    /// The strict values of the call, for the serializer.
    pub fn values(&self) -> (r: &Vec<StrictValue>)
        ensures
            values_view(r@) == self@.values,
    {
        &self.values
    }

    /// Where the message goes.
    pub fn destination(&self) -> (r: &Address)
        ensures
            r@ == self@.destination,
    {
        &self.destination
    }

    /// What deploys the contract, if the message does.
    pub fn deploy(&self) -> (r: &Option<DeployPayload>)
        ensures
            deploy_view(*r) == self@.deploy,
    {
        &self.deploy
    }

    /// The signer's public key, once a replacement key has taken its place.
    pub fn public_key(&self) -> (r: &Option<Vec<u8>>)
        ensures
            key_view(*r) == self@.public_key,
    {
        &self.public_key
    }

    /// The signature domain, where one is configured.
    pub fn signature_id(&self) -> (r: Option<i32>)
        ensures
            r == self@.signature_id,
    {
        self.signature_id
    }

    /// Whether the life cycle of the draft is over at `now`.
    pub fn is_over(&self, now: u64) -> (r: bool)
        ensures
            r == self@.is_over(now),
    {
        self.state == DraftState::Expired || now > self.expire_at
    }

    /// Takes the serialized body, without its signature, and computes the
    /// hash to sign: from `Draft` to `HashReady`. Where the life cycle is
    /// over, in whatever state, the draft becomes `Expired` and the result is
    /// `MessageExpired` with the instant that was resolved when the draft was
    /// built.
    pub fn prepare_hash(&mut self, body: Vec<u8>, now: u64) -> (r: Result<Vec<u8>, BridgeError>)
        requires
            old(self)@.state == DraftState::Draft || old(self)@.is_over(now),
        ensures
            match prepared(old(self)@, body@, now) {
                Ok(ready) => r matches Ok(hash) && hash@ == ready.hash && final(self)@ == ready,
                Err(e) => r matches Err(f) && f@ == e && final(self)@ == old(self)@.expired(),
            },
    {
        if self.is_over(now) {
            self.state = DraftState::Expired;
            return Err(BridgeError::MessageExpired(self.expire_at));
        }
        let mut unsigned: Vec<u8> = Vec::new();
        let mut i: usize = 0;
        while i < 64
            invariant
                i <= 64,
                unsigned@ == Seq::new(i as nat, |j: int| 0u8),
            decreases 64 - i,
        {
            unsigned.push(0);
            assert(unsigned@ =~= Seq::new((i + 1) as nat, |j: int| 0u8));
            i = i + 1;
        }
        let mut k: usize = 0;
        while k < body.len()
            invariant
                k <= body.len(),
                unsigned@ == Seq::new(64, |j: int| 0u8) + body@.take(k as int),
            decreases body.len() - k,
        {
            unsigned.push(body[k]);
            assert(unsigned@ =~= Seq::new(64, |j: int| 0u8) + body@.take(k + 1));
            k = k + 1;
        }
        assert(body@.take(body.len() as int) =~= body@);
        let payload = extend_with_signature_id(&unsigned, self.signature_id);
        let hash = hash_bytes(&payload);
        let copy = copy_range(&hash, 0, hash.len());
        assert(copy@ =~= hash@);
        self.body = body;
        self.hash = hash;
        self.state = DraftState::HashReady;
        Ok(copy)
    }

    /// The hash to sign of a draft that is `HashReady` or `Signed`. Where the
    /// life cycle is over, in whatever state, the result is `MessageExpired`.
    pub fn signing_hash(&self, now: u64) -> (r: Result<Vec<u8>, BridgeError>)
        requires
            self@.state == DraftState::HashReady || self@.state == DraftState::Signed
                || self@.is_over(now),
        ensures
            match requested_hash(self@, now) {
                Ok(hash) => r matches Ok(h) && h@ == hash && hash == signing_hash(
                    self@.body,
                    self@.signature_id,
                ),
                Err(e) => r matches Err(f) && f@ == e,
            },
    {
        proof {
            use_type_invariant(self);
        }
        if self.is_over(now) {
            return Err(BridgeError::MessageExpired(self.expire_at));
        }
        let copy = copy_range(&self.hash, 0, self.hash.len());
        assert(copy@ =~= self.hash@);
        Ok(copy)
    }
}

/// What taking the body gives: `MessageExpired` where the life cycle is
/// over; else the draft `HashReady`, with the body and the hash to sign.
pub open spec fn prepared(draft: DraftModel, body: Seq<u8>, now: u64) -> Result<
    DraftModel,
    ErrorModel,
> {
    if draft.is_over(now) {
        Err(ErrorModel::MessageExpired(draft.expire_at as nat))
    } else {
        Ok(
            DraftModel {
                state: DraftState::HashReady,
                body,
                hash: signing_hash(body, draft.signature_id),
                ..draft
            },
        )
    }
}

/// What asking for the hash gives: `MessageExpired` where the life cycle is
/// over; else the hash that the draft holds.
pub open spec fn requested_hash(draft: DraftModel, now: u64) -> Result<Seq<u8>, ErrorModel> {
    if draft.is_over(now) {
        Err(ErrorModel::MessageExpired(draft.expire_at as nat))
    } else {
        Ok(draft.hash)
    }
}

/// What the signature step gives.
///
/// Where the life cycle is over the result is `MessageExpired`, whatever
/// the signature. A signature that has not 64 bytes is a
/// `SignatureLengthMismatch`. A replacement key must have 32 bytes, and the
/// persistent state that it goes into at least as many, else the result is a
/// `TypeMismatch`. Otherwise the draft is `Signed`, with the signature; a
/// replacement key takes the place of the signer's public key, and stands at
/// the start of the persistent state of a deploy payload.
pub open spec fn injected(
    draft: DraftModel,
    signature: Seq<u8>,
    key: Option<Seq<u8>>,
    now: u64,
) -> Result<DraftModel, ErrorModel> {
    if draft.is_over(now) {
        Err(ErrorModel::MessageExpired(draft.expire_at as nat))
    } else if signature.len() != signature_length() {
        Err(ErrorModel::SignatureLengthMismatch)
    } else {
        match replaced_key(draft.deploy, key) {
            Err(e) => Err(e),
            Ok(deploy) => Ok(
                DraftModel {
                    state: DraftState::Signed,
                    signature,
                    deploy,
                    public_key: match key {
                        Some(k) => Some(k),
                        None => draft.public_key,
                    },
                    ..draft
                },
            ),
        }
    }
}

/// The deploy payload with the replacement key in its persistent state.
pub open spec fn replaced_key(deploy: Option<DeployModel>, key: Option<Seq<u8>>) -> Result<
    Option<DeployModel>,
    ErrorModel,
> {
    match key {
        None => Ok(deploy),
        Some(k) => if k.len() != 32 {
            Err(ErrorModel::TypeMismatch)
        } else {
            match deploy {
                None => Ok(None),
                Some(payload) => if payload.data.len() < 32 {
                    Err(ErrorModel::TypeMismatch)
                } else {
                    Ok(
                        Some(
                            DeployModel {
                                code: payload.code,
                                data: with_public_key(payload.data, k),
                            },
                        ),
                    )
                },
            }
        },
    }
}

/// The signed message of a signed draft, or `MessageExpired` where the life
/// cycle is over.
pub open spec fn finalized(draft: DraftModel, now: u64) -> Result<SignedModel, ErrorModel> {
    if draft.is_over(now) {
        Err(ErrorModel::MessageExpired(draft.expire_at as nat))
    } else {
        Ok(
            SignedModel {
                destination: draft.destination,
                deploy: draft.deploy,
                bytes: signed_body(draft.signature, draft.body),
                expire_at: draft.expire_at,
            },
        )
    }
}

/// What signing and finalizing a draft gives: the signature step, then the
/// signed message.
pub open spec fn finalized_with(
    draft: DraftModel,
    signature: Seq<u8>,
    key: Option<Seq<u8>>,
    now: u64,
) -> Result<SignedModel, ErrorModel> {
    match injected(draft, signature, key, now) {
        Ok(signed) => finalized(signed, now),
        Err(e) => Err(e),
    }
}

/// A `SignedMessageResult` as a mathematical value.
pub struct SignedModel {
    pub destination: AddressModel,
    pub deploy: Option<DeployModel>,
    pub bytes: Seq<u8>,
    pub expire_at: u64,
}

impl View for SignedMessageResult {
    type V = SignedModel;

    open spec fn view(&self) -> SignedModel {
        SignedModel {
            destination: self.destination@,
            deploy: deploy_view(self.deploy),
            bytes: self.bytes@,
            expire_at: self.expire_at,
        }
    }
}

/// The expiration guard: once the expiration instant has elapsed, or the
/// draft is `Expired`, every request fails with `MessageExpired`, in
/// whatever state the draft is and whatever the body, the signature and the
/// key; and the instant that it names is the one that the draft was built
/// with.
pub proof fn lemma_expired_in_every_state(
    draft: DraftModel,
    body: Seq<u8>,
    signature: Seq<u8>,
    key: Option<Seq<u8>>,
    now: u64,
)
    requires
        draft.is_over(now),
    ensures
        prepared(draft, body, now) == Err::<DraftModel, ErrorModel>(
            ErrorModel::MessageExpired(draft.expire_at as nat),
        ),
        requested_hash(draft, now) == Err::<Seq<u8>, ErrorModel>(
            ErrorModel::MessageExpired(draft.expire_at as nat),
        ),
        injected(draft, signature, key, now) == Err::<DraftModel, ErrorModel>(
            ErrorModel::MessageExpired(draft.expire_at as nat),
        ),
        finalized(draft, now) == Err::<SignedModel, ErrorModel>(
            ErrorModel::MessageExpired(draft.expire_at as nat),
        ),
        finalized_with(draft, signature, key, now) == Err::<SignedModel, ErrorModel>(
            ErrorModel::MessageExpired(draft.expire_at as nat),
        ),
        draft.expired().expire_at == draft.expire_at,
        draft.expired().is_over(now),
{
}

/// A draft that was built without delay is over as soon as the clock
/// advances, and stays so: no step changes its expiration instant.
pub proof fn lemma_built_without_delay_is_over(
    destination: Seq<char>,
    deploy: Option<DeployModel>,
    schema: Seq<ParamModel>,
    input: HostModel,
    signature_id: Option<i32>,
    built_at: u64,
    now: u64,
    body: Seq<u8>,
)
    requires
        built_draft(
            destination,
            deploy,
            schema,
            input,
            MessageExpiration::Timeout(0),
            signature_id,
            built_at,
        ) is Ok,
        now > built_at,
    ensures
        built_draft(
            destination,
            deploy,
            schema,
            input,
            MessageExpiration::Timeout(0),
            signature_id,
            built_at,
        )->Ok_0.is_over(now),
        prepared(
            built_draft(
                destination,
                deploy,
                schema,
                input,
                MessageExpiration::Timeout(0),
                signature_id,
                built_at,
            )->Ok_0,
            body,
            built_at,
        ) matches Ok(ready) && ready.expire_at == built_at && ready.is_over(now),
{
}

/// The view of a key that may be absent.
pub open spec fn key_view(key: Option<Vec<u8>>) -> Option<Seq<u8>> {
    match key {
        Some(k) => Some(k@),
        None => None,
    }
}

/// The deploy payload with the replacement key in its persistent state.
pub fn replace_key(deploy: &Option<DeployPayload>, key: &Option<Vec<u8>>) -> (r: Result<
    Option<DeployPayload>,
    BridgeError,
>)
    ensures
        match r {
            Ok(payload) => replaced_key(deploy_view(*deploy), key_view(*key)) == Ok::<
                Option<DeployModel>,
                ErrorModel,
            >(deploy_view(payload)),
            Err(e) => replaced_key(deploy_view(*deploy), key_view(*key)) == Err::<
                Option<DeployModel>,
                ErrorModel,
            >(e@),
        },
{
    match deploy {
        None => match key {
            None => Ok(None),
            Some(k) => if k.len() != 32 {
                Err(BridgeError::TypeMismatch)
            } else {
                Ok(None)
            },
        },
        Some(payload) => {
            let code = copy_range(&payload.code, 0, payload.code.len());
            assert(code@ =~= payload.code@);
            match key {
                None => {
                    let data = copy_range(&payload.data, 0, payload.data.len());
                    assert(data@ =~= payload.data@);
                    Ok(Some(DeployPayload { code, data }))
                },
                Some(k) => if k.len() != 32 || payload.data.len() < 32 {
                    Err(BridgeError::TypeMismatch)
                } else {
                    let mut data = copy_range(k, 0, 32);
                    let rest = copy_range(&payload.data, 32, payload.data.len());
                    let mut i: usize = 0;
                    while i < rest.len()
                        invariant
                            i <= rest.len(),
                            data@ == k@.subrange(0, 32) + rest@.take(i as int),
                        decreases rest.len() - i,
                    {
                        data.push(rest[i]);
                        assert(data@ =~= k@.subrange(0, 32) + rest@.take(i + 1));
                        i = i + 1;
                    }
                    assert(data@ =~= with_public_key(payload.data@, k@));
                    Ok(Some(DeployPayload { code, data }))
                },
            }
        },
    }
}

impl UnsignedMessageDraft {
    /// The signature step, from `HashReady` to `Signed`: puts the signature
    /// in its slot and, where a replacement key is given, the key at the start
    /// of the persistent state of the deploy payload. Where the life cycle is
    /// over, in whatever state, the draft becomes `Expired` and the result is
    /// `MessageExpired`; on any other fault the draft stays as it was.
    pub fn inject_signature(
        &mut self,
        signature: &Vec<u8>,
        replacement_key: &Option<Vec<u8>>,
        now: u64,
    ) -> (r: Result<(), BridgeError>)
        requires
            old(self)@.state == DraftState::HashReady || old(self)@.is_over(now),
        ensures
            match injected(old(self)@, signature@, key_view(*replacement_key), now) {
                Ok(signed) => r is Ok && final(self)@ == signed,
                Err(e) => r matches Err(f) && f@ == e && final(self)@ == (if old(self)@.is_over(
                    now,
                ) {
                    old(self)@.expired()
                } else {
                    old(self)@
                }),
            },
    {
        proof {
            use_type_invariant(&*self);
        }
        if self.is_over(now) {
            self.state = DraftState::Expired;
            return Err(BridgeError::MessageExpired(self.expire_at));
        }
        if signature.len() != 64 {
            return Err(BridgeError::SignatureLengthMismatch);
        }
        let deploy = match replace_key(&self.deploy, replacement_key) {
            Ok(deploy) => deploy,
            Err(e) => {
                return Err(e);
            },
        };
        let copy = copy_range(signature, 0, 64);
        assert(copy@ =~= signature@);
        match replacement_key {
            Some(key) => {
                let held = copy_range(key, 0, key.len());
                assert(held@ =~= key@);
                self.public_key = Some(held);
            },
            None => {},
        }
        self.signature = copy;
        self.deploy = deploy;
        self.state = DraftState::Signed;
        Ok(())
    }

    /// The signed message of a signed draft. The draft is consumed. Where
    /// the life cycle is over, in whatever state, the result is
    /// `MessageExpired`.
    pub fn finalize(self, now: u64) -> (r: Result<SignedMessageResult, BridgeError>)
        requires
            self@.state == DraftState::Signed || self@.is_over(now),
        ensures
            match r {
                Ok(signed) => finalized(self@, now) == Ok::<SignedModel, ErrorModel>(signed@),
                Err(e) => finalized(self@, now) == Err::<SignedModel, ErrorModel>(e@),
            },
    {
        if self.is_over(now) {
            return Err(BridgeError::MessageExpired(self.expire_at));
        }
        let mut bytes = copy_range(&self.signature, 0, self.signature.len());
        let mut i: usize = 0;
        while i < self.body.len()
            invariant
                i <= self.body.len(),
                bytes@ == self.signature@ + self.body@.take(i as int),
            decreases self.body.len() - i,
        {
            bytes.push(self.body[i]);
            assert(bytes@ =~= self.signature@ + self.body@.take(i + 1));
            i = i + 1;
        }
        assert(bytes@ =~= signed_body(self.signature@, self.body@));
        Ok(
            SignedMessageResult {
                destination: self.destination,
                deploy: self.deploy,
                bytes,
                expire_at: self.expire_at,
            },
        )
    }
}

/// Signs and finalizes a draft: the signature step, then the signed
/// message. The draft is consumed. Where the life cycle is over, in whatever
/// state, the result is `MessageExpired`, whatever the signature.
pub fn finalize_signed_message(
    draft: UnsignedMessageDraft,
    signature: &Vec<u8>,
    replacement_key: &Option<Vec<u8>>,
    now: u64,
) -> (r: Result<SignedMessageResult, BridgeError>)
    requires
        draft@.state == DraftState::HashReady || draft@.is_over(now),
    ensures
        match r {
            Ok(signed) => finalized_with(draft@, signature@, key_view(*replacement_key), now)
                == Ok::<SignedModel, ErrorModel>(signed@),
            Err(e) => finalized_with(draft@, signature@, key_view(*replacement_key), now)
                == Err::<SignedModel, ErrorModel>(e@),
        },
{
    let mut draft = draft;
    match draft.inject_signature(signature, replacement_key, now) {
        Ok(()) => draft.finalize(now),
        Err(e) => Err(e),
    }
}

} // verus!
