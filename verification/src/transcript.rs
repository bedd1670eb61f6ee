//! Fiat-Shamir transcripts.
//!
//! A `merlin::Transcript` is described by the sequence of operations that
//! have been applied to it since it was created: messages absorbed under a
//! label, and challenges squeezed out under a label. Every challenge is a
//! function of that sequence alone, so two parties that feed the same
//! messages in the same order draw the same challenges.
use crate::field::{fr_modulus, le_bytes_value, Scalar};
use crate::group::{g1_encoding, Point};
use merlin::Transcript;
use vstd::arithmetic::power2::pow2;
use vstd::prelude::*;

verus! {

/// One operation applied to a transcript.
pub enum Entry {
    /// `append_message(label, data)`.
    Message { label: Seq<u8>, data: Seq<u8> },
    /// `challenge_bytes(label, dest)` with `dest` of length `len`.
    Challenge { label: Seq<u8>, len: nat },
}

#[verifier::external_type_specification]
#[verifier::external_body]
pub struct ExTranscript(Transcript);

/// The operations applied to a `merlin::Transcript` so far, its creation
/// (a message under the label `dom-sep`) first.
pub uninterp spec fn transcript_log(t: Transcript) -> Seq<Entry>;

/// The bytes that `merlin::Transcript::challenge_bytes(label, dest)` writes
/// into a `dest` of length `len`, on a transcript with the given operations.
pub uninterp spec fn merlin_challenge(log: Seq<Entry>, label: Seq<u8>, len: nat) -> Seq<u8>;

/// The little-endian bytes of a 64-bit integer.
pub open spec fn u64_le_bytes(x: u64) -> Seq<u8> {
    Seq::new(8, |i: int| ((x as nat / pow2((8 * i) as nat)) % 256) as u8)
}

/// The log after absorbing `data` under `label`.
pub open spec fn with_message(log: Seq<Entry>, label: Seq<u8>, data: Seq<u8>) -> Seq<Entry> {
    log.push(Entry::Message { label, data })
}

/// The log after absorbing the encoding of the point `[k]G` under `label`.
pub open spec fn with_point(log: Seq<Entry>, label: Seq<u8>, k: nat) -> Seq<Entry> {
    with_message(log, label, g1_encoding(k))
}

/// The field element drawn under `label` from a transcript with this log.
pub open spec fn challenge_value(log: Seq<Entry>, label: Seq<u8>) -> nat {
    le_bytes_value(merlin_challenge(log, label, 32)) % fr_modulus()
}

/// The log after drawing a challenge under `label`.
pub open spec fn with_challenge(log: Seq<Entry>, label: Seq<u8>) -> Seq<Entry> {
    log.push(Entry::Challenge { label, len: 32 })
}

/// The log after the domain separator for vectors of length `n`.
pub open spec fn with_dom_sep(log: Seq<Entry>, n: u64) -> Seq<Entry> {
    with_message(with_message(log, dom_sep_label(), protocol_name()), n_label(), u64_le_bytes(n))
}

// The labels that the protocols use, as bytes.
pub open spec fn dom_sep_label() -> Seq<u8> {
    seq![100u8, 111, 109, 45, 115, 101, 112]
}

pub open spec fn protocol_name() -> Seq<u8> {
    seq![78u8, 89, 85, 95, 67, 111, 117, 114, 97, 110, 116, 95, 73, 80, 65, 95, 118, 49]
}

pub open spec fn n_label() -> Seq<u8> {
    seq![110u8]
}

pub open spec fn l_label() -> Seq<u8> {
    seq![76u8]
}

pub open spec fn r_label() -> Seq<u8> {
    seq![82u8]
}

pub open spec fn x_label() -> Seq<u8> {
    seq![120u8]
}

pub open spec fn r1cs_ipa_label() -> Seq<u8> {
    seq![82u8, 49, 67, 83, 45, 73, 80, 65]
}

pub open spec fn v_a_label() -> Seq<u8> {
    seq![86u8, 95, 65]
}

pub open spec fn v_b_label() -> Seq<u8> {
    seq![86u8, 95, 66]
}

pub open spec fn v_c_label() -> Seq<u8> {
    seq![86u8, 95, 67]
}

pub open spec fn y_label() -> Seq<u8> {
    seq![121u8]
}

pub open spec fn s_label() -> Seq<u8> {
    seq![83u8]
}

pub open spec fn t_1_label() -> Seq<u8> {
    seq![84u8, 95, 49]
}

pub open spec fn t_2_label() -> Seq<u8> {
    seq![84u8, 95, 50]
}
pub fn label_r1cs_ipa() -> (l: &'static [u8])
    ensures
        l@ == r1cs_ipa_label(),
{
    &[82u8, 49, 67, 83, 45, 73, 80, 65]
}

pub fn label_v_a() -> (l: &'static [u8])
    ensures
        l@ == v_a_label(),
{
    &[86u8, 95, 65]
}

pub fn label_v_b() -> (l: &'static [u8])
    ensures
        l@ == v_b_label(),
{
    &[86u8, 95, 66]
}

pub fn label_v_c() -> (l: &'static [u8])
    ensures
        l@ == v_c_label(),
{
    &[86u8, 95, 67]
}

pub fn label_y() -> (l: &'static [u8])
    ensures
        l@ == y_label(),
{
    &[121u8]
}

pub fn label_s() -> (l: &'static [u8])
    ensures
        l@ == s_label(),
{
    &[83u8]
}

pub fn label_t_1() -> (l: &'static [u8])
    ensures
        l@ == t_1_label(),
{
    &[84u8, 95, 49]
}

pub fn label_t_2() -> (l: &'static [u8])
    ensures
        l@ == t_2_label(),
{
    &[84u8, 95, 50]
}

pub fn label_dom_sep() -> (l: &'static [u8])
    ensures
        l@ == dom_sep_label(),
{
    &[100u8, 111, 109, 45, 115, 101, 112]
}

pub fn label_protocol_name() -> (l: &'static [u8])
    ensures
        l@ == protocol_name(),
{
    &[78u8, 89, 85, 95, 67, 111, 117, 114, 97, 110, 116, 95, 73, 80, 65, 95, 118, 49]
}

pub fn label_n() -> (l: &'static [u8])
    ensures
        l@ == n_label(),
{
    &[110u8]
}

pub fn label_l() -> (l: &'static [u8])
    ensures
        l@ == l_label(),
{
    &[76u8]
}

pub fn label_r() -> (l: &'static [u8])
    ensures
        l@ == r_label(),
{
    &[82u8]
}

pub fn label_x() -> (l: &'static [u8])
    ensures
        l@ == x_label(),
{
    &[120u8]
}

/// Absorbing points and drawing field elements as challenges.
pub trait TranscriptProtocol {
    /// Separates the protocol's domain and binds the vector length `n`.
    fn dom_sep(&mut self, n: u64);

    /// Absorbs the compressed encoding of `point` under `label`.
    fn append_point(&mut self, label: &'static [u8], point: &Point);

    /// Draws 32 bytes under `label` and reads them as a field element.
    fn get_challenge(&mut self, label: &'static [u8]) -> Scalar;
}

impl TranscriptProtocol for Transcript {
    fn dom_sep(&mut self, n: u64)
        ensures
            transcript_log(*final(self)) == with_dom_sep(transcript_log(*old(self)), n),
    {
        transcript_append_message(self, label_dom_sep(), label_protocol_name());
        transcript_append_u64(self, label_n(), n);
    }

    fn append_point(&mut self, label: &'static [u8], point: &Point)
        ensures
            transcript_log(*final(self)) == with_message(
                transcript_log(*old(self)),
                label@,
                point.encoding(),
            ),
    {
        let bytes = point.to_bytes();
        transcript_append_message(self, label, &bytes);
    }

    fn get_challenge(&mut self, label: &'static [u8]) -> (s: Scalar)
        ensures
            s.wf(),
            s.value() == challenge_value(transcript_log(*old(self)), label@),
            transcript_log(*final(self)) == with_challenge(transcript_log(*old(self)), label@),
    {
        let buf = transcript_challenge_bytes(self, label);
        Scalar::from_le_bytes_mod_order(&buf)
    }
}

/// `merlin::Transcript::new(label)`: a fresh transcript whose only
/// operation is the message `label` under `dom-sep`.
#[verifier::external_body]
pub(crate) fn transcript_new(label: &'static [u8]) -> (t: Transcript)
    ensures
        transcript_log(t) == seq![Entry::Message { label: dom_sep_label(), data: label@ }],
{
    Transcript::new(label)
}

/// `merlin::Transcript::append_message`: records the message under the
/// label (it panics on messages longer than `u32::MAX`).
#[verifier::external_body]
fn transcript_append_message(t: &mut Transcript, label: &'static [u8], message: &[u8])
    requires
        message@.len() <= u32::MAX,
    ensures
        transcript_log(*final(t)) == with_message(transcript_log(*old(t)), label@, message@),
{
    t.append_message(label, message)
}

/// `merlin::Transcript::append_u64`: the message is the eight
/// little-endian bytes of `x`.
#[verifier::external_body]
fn transcript_append_u64(t: &mut Transcript, label: &'static [u8], x: u64)
    ensures
        transcript_log(*final(t)) == with_message(transcript_log(*old(t)), label@, u64_le_bytes(x)),
{
    t.append_u64(label, x)
}

/// `merlin::Transcript::challenge_bytes` into a 32-byte buffer: the bytes
/// are determined by the operations so far and the label, and the draw is
/// recorded.
#[verifier::external_body]
fn transcript_challenge_bytes(t: &mut Transcript, label: &'static [u8]) -> (buf: [u8; 32])
    ensures
        buf@ == merlin_challenge(transcript_log(*old(t)), label@, 32),
        transcript_log(*final(t)) == with_challenge(transcript_log(*old(t)), label@),
{
    let mut buf = [0u8; 32];
    t.challenge_bytes(label, &mut buf);
    buf
}

} // verus!
