//! The certificate authority that lets the proxy read protected traffic: its
//! own certificate, the ones it issues for hosts, and the memory of those.

use vstd::hash_map::StringHashMap;
use vstd::prelude::*;
use vstd::slice::slice_to_vec;
use vstd::utf8::is_ascii_chars;

verus! {

// ---------------------------------------------------------------------------
// Certificates and keys
// ---------------------------------------------------------------------------

/// What a certificate is to say, held by `rcgen`.
#[verifier::external_type_specification]
#[verifier::external_body]
pub struct ExCertificateParams(rcgen::CertificateParams);

/// A signed certificate, held by `rcgen`.
#[verifier::external_type_specification]
#[verifier::external_body]
pub struct ExCertificate(rcgen::Certificate);

/// A key pair, held by `rcgen`.
#[verifier::external_type_specification]
#[verifier::external_body]
pub struct ExKeyPair(rcgen::KeyPair);

/// A distinguished name, held by `rcgen`.
#[verifier::external_type_specification]
#[verifier::external_body]
pub struct ExDistinguishedName(rcgen::DistinguishedName);

/// An error of `rcgen`.
#[verifier::external_type_specification]
#[verifier::external_body]
pub struct ExRcgenError(rcgen::Error);

/// Whether the subject alternative names are the one name `host`, an address if
/// it reads as one.
pub uninterp spec fn names_host(params: rcgen::CertificateParams, host: Seq<char>) -> bool;

/// Whether the distinguished name is the one common name `name`.
pub uninterp spec fn has_common_name(params: rcgen::CertificateParams, name: Seq<char>) -> bool;

/// Whether the certificate is to be that of an authority.
pub uninterp spec fn is_authority(params: rcgen::CertificateParams) -> bool;

/// Whether parameters are those that `rcgen::CertificateParams::new` gives for
/// one name that is not empty, but for another common name and for being those
/// of an authority.
pub uninterp spec fn plainly_made(params: rcgen::CertificateParams) -> bool;

/// What a certificate says.
pub uninterp spec fn params_of(cert: rcgen::Certificate) -> rcgen::CertificateParams;

/// Whether `cert` certifies `key` and is signed with it.
pub uninterp spec fn self_issued(cert: rcgen::Certificate, key: rcgen::KeyPair) -> bool;

/// Whether `cert` certifies `key`, names the subject of `issuer` as its issuer
/// and is signed with `issuer_key`.
pub uninterp spec fn issued_by(
    cert: rcgen::Certificate,
    key: rcgen::KeyPair,
    issuer: rcgen::Certificate,
    issuer_key: rcgen::KeyPair,
) -> bool;

/// The bytes of a certificate.
pub uninterp spec fn certificate_der(cert: rcgen::Certificate) -> Seq<u8>;

/// Whether a text is the PEM form of a certificate, with the line ends of some
/// machine.
pub uninterp spec fn is_certificate_pem(text: Seq<char>, cert: rcgen::Certificate) -> bool;

/// Whether a key pair holds its private key itself.
pub uninterp spec fn holds_private_key(key: rcgen::KeyPair) -> bool;

/// The bytes of a key pair.
pub uninterp spec fn key_der(key: rcgen::KeyPair) -> Seq<u8>;

/// Whether a text is the PEM form of a key pair, with the line ends of some
/// machine.
pub uninterp spec fn is_key_pem(text: Seq<char>, key: rcgen::KeyPair) -> bool;

// ---------------------------------------------------------------------------
// What can be written
// ---------------------------------------------------------------------------

/// One part of a distinguished name, as far as it matters for writing it: the
/// identifier of its type if that is not a common one, and its text if it is a
/// printable string.
pub struct NamePart {
    pub oid: Option<Vec<u64>>,
    pub printable: Option<String>,
}

/// What a [`NamePart`] holds.
pub struct NamePartView {
    pub oid: Option<Seq<u64>>,
    pub printable: Option<Seq<char>>,
}

impl View for NamePart {
    type V = NamePartView;

    open spec fn view(&self) -> NamePartView {
        NamePartView {
            oid: match self.oid {
                Some(oid) => Some(oid@),
                None => None,
            },
            printable: match self.printable {
                Some(text) => Some(text@),
                None => None,
            },
        }
    }
}

/// A constraint on names, as far as it matters for writing it.
pub enum Constraint {
    Text(String),
    Directory(rcgen::DistinguishedName),
    Address,
}

/// What a [`Constraint`] holds.
pub enum ConstraintView {
    Text(Seq<char>),
    Directory(rcgen::DistinguishedName),
    Address,
}

impl View for Constraint {
    type V = ConstraintView;

    open spec fn view(&self) -> ConstraintView {
        match *self {
            Constraint::Text(text) => ConstraintView::Text(text@),
            Constraint::Directory(name) => ConstraintView::Directory(name),
            Constraint::Address => ConstraintView::Address,
        }
    }
}

/// A point in time: its year where it was written, and seconds since 1970.
#[derive(Debug, Clone, Copy)]
pub struct Instant {
    pub year: i32,
    pub seconds: i64,
}

/// The distinguished name of the subject.
pub uninterp spec fn subject_of(params: rcgen::CertificateParams) -> rcgen::DistinguishedName;

/// The parts of a distinguished name.
pub uninterp spec fn parts_of(name: rcgen::DistinguishedName) -> Seq<NamePartView>;

/// For each subject alternative name its identifier, if it is of another kind
/// than the common ones.
pub uninterp spec fn other_names_of(params: rcgen::CertificateParams) -> Seq<Option<Seq<u64>>>;

/// For each extended key usage its identifier, if it is not a common one.
pub uninterp spec fn other_usages_of(params: rcgen::CertificateParams) -> Seq<Option<Seq<u64>>>;

/// The constraints on names, the permitted ones first.
pub uninterp spec fn constraints_of(params: rcgen::CertificateParams) -> Seq<ConstraintView>;

/// When the certificate starts and ends to be valid.
pub uninterp spec fn validity_of(params: rcgen::CertificateParams) -> (Instant, Instant);

/// How many custom extensions and revocation list addresses there are.
pub uninterp spec fn extras_of(params: rcgen::CertificateParams) -> (usize, usize);

/// The views of identifiers.
pub open spec fn oid_views(oids: Seq<Option<Vec<u64>>>) -> Seq<Option<Seq<u64>>> {
    oids.map_values(
        |oid: Option<Vec<u64>>|
            match oid {
                Some(numbers) => Some(numbers@),
                None => None::<Seq<u64>>,
            },
    )
}

/// Whether an object identifier can be written: it has two numbers, of which
/// the first is at most two and the second fits beside it.
pub open spec fn writable_oid(oid: Seq<u64>) -> bool {
    &&& oid.len() >= 2
    &&& oid[0] < 3
    &&& oid[1] < 18446744073709551535
    &&& oid[0] >= 2 || oid[1] < 40
}

/// Whether a distinguished name can be written.
pub open spec fn writable_name(name: rcgen::DistinguishedName) -> bool {
    forall|i: int|
        0 <= i < parts_of(name).len() ==> {
            let part = #[trigger] parts_of(name)[i];
            &&& part.oid matches Some(oid) ==> writable_oid(oid)
            &&& part.printable matches Some(text) ==> !text.contains('?')
        }
}

/// Whether all identifiers that are given can be written.
pub open spec fn writable_oids(oids: Seq<Option<Seq<u64>>>) -> bool {
    forall|i: int|
        0 <= i < oids.len() ==> (#[trigger] oids[i] matches Some(oid) ==> writable_oid(oid))
}

/// Whether a constraint can be written.
pub open spec fn writable_constraint(constraint: ConstraintView) -> bool {
    match constraint {
        ConstraintView::Text(text) => is_ascii_chars(text),
        ConstraintView::Directory(name) => writable_name(name),
        ConstraintView::Address => true,
    }
}

/// Whether a point in time can be written: in the short form if its year is
/// between 1950 and 2049, which it then has to be at Greenwich too, else in the
/// long form, whose years have four digits.
pub open spec fn writable_instant(time: Instant) -> bool {
    if 1950 <= time.year < 2050 {
        -631_152_000 <= time.seconds < 2_524_608_000
    } else {
        -62_167_219_200 <= time.seconds < 253_402_300_800
    }
}

/// Whether a certificate with these parameters can be written.
pub open spec fn writable(params: rcgen::CertificateParams) -> bool {
    &&& writable_name(subject_of(params))
    &&& writable_oids(other_names_of(params))
    &&& writable_oids(other_usages_of(params))
    &&& forall|i: int|
        0 <= i < constraints_of(params).len() ==> writable_constraint(
            #[trigger] constraints_of(params)[i],
        )
    &&& writable_instant(validity_of(params).0)
    &&& writable_instant(validity_of(params).1)
    &&& extras_of(params) == (0usize, 0usize)
}

/// The field `distinguished_name` of [`rcgen::CertificateParams`].
#[verifier::external_body]
fn subject(params: &rcgen::CertificateParams) -> (name: rcgen::DistinguishedName)
    ensures
        name == subject_of(*params),
{
    params.distinguished_name.clone()
}

/// [`rcgen::DistinguishedName::iter`]: the parts of a distinguished name.
#[verifier::external_body]
fn name_parts(name: &rcgen::DistinguishedName) -> (parts: Vec<NamePart>)
    ensures
        parts@.map_values(|part: NamePart| part@) == parts_of(*name),
{
    let parts = name.iter().map(|(kind, value)| NamePart {
        oid: match kind {
            rcgen::DnType::CustomDnType(oid) => Some(oid.clone()),
            _ => None,
        },
        printable: match value {
            rcgen::DnValue::PrintableString(text) => Some(text.as_str().to_string()),
            _ => None,
        },
    });
    parts.collect()
}

/// The field `subject_alt_names` of [`rcgen::CertificateParams`]: the
/// identifiers of names of another kind.
#[verifier::external_body]
fn other_names(params: &rcgen::CertificateParams) -> (oids: Vec<Option<Vec<u64>>>)
    ensures
        oid_views(oids@) == other_names_of(*params),
{
    let oids = params.subject_alt_names.iter().map(|name| match name {
        rcgen::SanType::OtherName((oid, _)) => Some(oid.clone()),
        _ => None,
    });
    oids.collect()
}

/// The field `extended_key_usages` of [`rcgen::CertificateParams`]: the
/// identifiers of usages of another kind.
#[verifier::external_body]
fn other_usages(params: &rcgen::CertificateParams) -> (oids: Vec<Option<Vec<u64>>>)
    ensures
        oid_views(oids@) == other_usages_of(*params),
{
    let oids = params.extended_key_usages.iter().map(|usage| match usage {
        rcgen::ExtendedKeyUsagePurpose::Other(oid) => Some(oid.clone()),
        _ => None,
    });
    oids.collect()
}

/// The field `name_constraints` of [`rcgen::CertificateParams`].
#[verifier::external_body]
fn constraints(params: &rcgen::CertificateParams) -> (list: Vec<Constraint>)
    ensures
        list@.map_values(|c: Constraint| c@) == constraints_of(*params),
{
    let all = params.name_constraints.iter();
    let trees = all.flat_map(|c| c.permitted_subtrees.iter().chain(&c.excluded_subtrees));
    let list = trees.map(|tree| match tree {
        rcgen::GeneralSubtree::Rfc822Name(text) => Constraint::Text(text.clone()),
        rcgen::GeneralSubtree::DnsName(text) => Constraint::Text(text.clone()),
        rcgen::GeneralSubtree::DirectoryName(name) => Constraint::Directory(name.clone()),
        _ => Constraint::Address,
    });
    list.collect()
}

/// The fields `not_before` and `not_after` of [`rcgen::CertificateParams`], as
/// the year and the time stamp that they give.
#[verifier::external_body]
fn validity(params: &rcgen::CertificateParams) -> (r: (Instant, Instant))
    ensures
        r == validity_of(*params),
{
    let (from, to) = (params.not_before, params.not_after);
    (
        Instant { year: from.year(), seconds: from.unix_timestamp() },
        Instant { year: to.year(), seconds: to.unix_timestamp() },
    )
}

/// The lengths of the fields `custom_extensions` and `crl_distribution_points`
/// of [`rcgen::CertificateParams`].
#[verifier::external_body]
fn extras(params: &rcgen::CertificateParams) -> (r: (usize, usize))
    ensures
        r == extras_of(*params),
{
    (params.custom_extensions.len(), params.crl_distribution_points.len())
}

fn can_write_oid(oid: &Option<Vec<u64>>) -> (r: bool)
    ensures
        r == (match *oid {
            Some(numbers) => writable_oid(numbers@),
            None => true,
        }),
{
    match oid {
        Some(numbers) => numbers.len() >= 2 && numbers[0] < 3 && numbers[1] < 18446744073709551535
            && (numbers[0] >= 2 || numbers[1] < 40),
        None => true,
    }
}

fn can_write_oids(oids: &Vec<Option<Vec<u64>>>) -> (r: bool)
    ensures
        r == writable_oids(oid_views(oids@)),
{
    let ghost views = oid_views(oids@);
    let mut i: usize = 0;
    while i < oids.len()
        invariant
            i <= oids@.len(),
            views == oid_views(oids@),
            forall|k: int|
                0 <= k < i ==> (#[trigger] views[k] matches Some(oid) ==> writable_oid(oid)),
        decreases oids@.len() - i,
    {
        if !can_write_oid(&oids[i]) {
            assert(views[i as int] is Some && !writable_oid(views[i as int]->Some_0));
            return false;
        }
        i += 1;
    }
    true
}

fn can_write_name(name: &rcgen::DistinguishedName) -> (r: bool)
    ensures
        r == writable_name(*name),
{
    let parts = name_parts(name);
    let ghost views = parts_of(*name);
    let mut i: usize = 0;
    while i < parts.len()
        invariant
            i <= parts@.len(),
            views == parts_of(*name),
            views == parts@.map_values(|part: NamePart| part@),
            forall|k: int|
                0 <= k < i ==> {
                    let part = #[trigger] views[k];
                    &&& part.oid matches Some(oid) ==> writable_oid(oid)
                    &&& part.printable matches Some(text) ==> !text.contains('?')
                },
        decreases parts@.len() - i,
    {
        let ghost part = views[i as int];
        assert(part == parts@[i as int]@);
        if !can_write_oid(&parts[i].oid) {
            assert(part.oid is Some && !writable_oid(part.oid->Some_0));
            return false;
        }
        if let Some(text) = &parts[i].printable {
            let chars = crate::text::chars_of(text.as_str());
            proof {
                crate::text::lemma_find(text@, '?');
            }
            if let Some(at) = crate::text::find_exec(chars.as_slice(), '?') {
                assert(text@[at as int] == '?');
                assert(part.printable == Some(text@));
                return false;
            }
        }
        i += 1;
    }
    true
}

fn can_write_instant(time: &Instant) -> (r: bool)
    ensures
        r == writable_instant(*time),
{
    if 1950 <= time.year && time.year < 2050 {
        -631_152_000 <= time.seconds && time.seconds < 2_524_608_000
    } else {
        -62_167_219_200 <= time.seconds && time.seconds < 253_402_300_800
    }
}

/// Whether a certificate with these parameters can be written.
pub fn can_write(params: &rcgen::CertificateParams) -> (r: bool)
    ensures
        r == writable(*params),
{
    if !can_write_name(&subject(params)) || !can_write_oids(&other_names(params))
        || !can_write_oids(&other_usages(params)) {
        return false;
    }
    let list = constraints(params);
    let ghost views = constraints_of(*params);
    let mut i: usize = 0;
    while i < list.len()
        invariant
            i <= list@.len(),
            views == constraints_of(*params),
            views == list@.map_values(|c: Constraint| c@),
            forall|k: int| 0 <= k < i ==> writable_constraint(#[trigger] views[k]),
        decreases list@.len() - i,
    {
        assert(views[i as int] == list@[i as int]@);
        let fine = match &list[i] {
            Constraint::Text(text) => text.as_str().is_ascii(),
            Constraint::Directory(name) => can_write_name(name),
            Constraint::Address => true,
        };
        if !fine {
            assert(!writable_constraint(views[i as int]));
            return false;
        }
        i += 1;
    }
    let (from, to) = validity(params);
    let (extensions, lists) = extras(params);
    can_write_instant(&from) && can_write_instant(&to) && extensions == 0 && lists == 0
}

// ---------------------------------------------------------------------------
// Making certificates
// ---------------------------------------------------------------------------

/// The common name in parameters that were not given another one.
pub open spec fn default_common_name() -> Seq<char> {
    "rcgen self signed cert"@
}

/// Whether signing a certificate with these parameters for this key and with it
/// may fail: drawing random bytes can, where the kind of the key asks for that.
pub uninterp spec fn signing_may_fail(
    params: rcgen::CertificateParams,
    key: rcgen::KeyPair,
) -> bool;

/// Calls [`rcgen::CertificateParams::new`] with one name. It fails exactly on a
/// name that is not ASCII; what it makes is for that name, has the common name
/// that `rcgen` gives by itself, is not for an authority, and can be written.
#[verifier::external_body]
fn new_params(name: &str) -> (r: Result<rcgen::CertificateParams, rcgen::Error>)
    ensures
        r is Ok <==> is_ascii_chars(name@),
        r matches Ok(params) ==> names_host(params, name@) && !is_authority(params) && writable(
            params,
        ) && has_common_name(params, default_common_name()) && (name@.len() > 0 ==> plainly_made(
            params,
        )),
{
    rcgen::CertificateParams::new(vec![name.to_string()])
}

/// Sets `distinguished_name` to a new [`rcgen::DistinguishedName`] with
/// [`rcgen::DistinguishedName::push`] of one common name, and leaves the other
/// parameters as they were.
#[verifier::external_body]
fn set_common_name(params: &mut rcgen::CertificateParams, name: &str)
    ensures
        has_common_name(*final(params), name@),
        forall|host: Seq<char>| #[trigger]
            names_host(*final(params), host) == names_host(*old(params), host),
        is_authority(*final(params)) == is_authority(*old(params)),
        writable(*old(params)) ==> writable(*final(params)),
        plainly_made(*old(params)) ==> plainly_made(*final(params)),
{
    params.distinguished_name = rcgen::DistinguishedName::new();
    params.distinguished_name.push(rcgen::DnType::CommonName, name);
}

/// Sets `is_ca` to an authority without a limit on its depth, and leaves the
/// other parameters as they were.
#[verifier::external_body]
fn set_authority(params: &mut rcgen::CertificateParams)
    ensures
        is_authority(*final(params)),
        forall|host: Seq<char>| #[trigger]
            names_host(*final(params), host) == names_host(*old(params), host),
        forall|name: Seq<char>| #[trigger]
            has_common_name(*final(params), name) == has_common_name(*old(params), name),
        writable(*old(params)) ==> writable(*final(params)),
        plainly_made(*old(params)) ==> plainly_made(*final(params)),
{
    params.is_ca = rcgen::IsCa::Ca(rcgen::BasicConstraints::Unconstrained);
}

/// Calls [`rcgen::KeyPair::generate`]. The key pair is random and holds its
/// private key; whether one can be had depends on the machine.
#[verifier::external_body]
fn generate_key() -> (r: Result<rcgen::KeyPair, rcgen::Error>)
    ensures
        r matches Ok(key) ==> holds_private_key(key),
{
    rcgen::KeyPair::generate()
}

/// Calls [`rcgen::CertificateParams::self_signed`]. The certificate says what
/// the parameters say, for this key and signed with it. It fails only where
/// signing does. It panics on parameters that cannot be written.
#[verifier::external_body]
fn self_sign(params: rcgen::CertificateParams, key: &rcgen::KeyPair) -> (r: Result<
    rcgen::Certificate,
    rcgen::Error,
>)
    requires
        writable(params),
    ensures
        r matches Ok(cert) ==> params_of(cert) == params && self_issued(cert, *key),
        r is Err ==> signing_may_fail(params, *key),
{
    params.self_signed(key)
}

/// Calls [`rcgen::CertificateParams::signed_by`]. The certificate says what the
/// parameters say, for this key and signed by the issuer. Whether signing works
/// is left unsaid. It panics on parameters that cannot be written, of the
/// certificate or of its issuer.
#[verifier::external_body]
fn sign(
    params: rcgen::CertificateParams,
    key: &rcgen::KeyPair,
    issuer: &rcgen::Certificate,
    issuer_key: &rcgen::KeyPair,
) -> (r: Result<rcgen::Certificate, rcgen::Error>)
    requires
        writable(params),
        writable(params_of(*issuer)),
    ensures
        r matches Ok(cert) ==> params_of(cert) == params && issued_by(
            cert,
            *key,
            *issuer,
            *issuer_key,
        ),
{
    params.signed_by(key, issuer, issuer_key)
}

/// Calls [`rcgen::Certificate::der`]: the bytes of the certificate.
#[verifier::external_body]
fn to_der(cert: &rcgen::Certificate) -> (out: Vec<u8>)
    ensures
        out@ == certificate_der(*cert),
{
    cert.der().to_vec()
}

/// Calls [`rcgen::Certificate::pem`]: the text of the certificate. Its line ends
/// are those of the machine. Where the certificate was made plainly, the text
/// can be read.
#[verifier::external_body]
fn to_pem(cert: &rcgen::Certificate) -> (out: String)
    ensures
        is_certificate_pem(out@, *cert),
        plainly_made(params_of(*cert)) ==> ca_pem_valid(out@),
{
    cert.pem()
}

/// Calls [`rcgen::KeyPair::serialize_der`]: the bytes of the key pair. It panics
/// on one that does not hold its private key.
#[verifier::external_body]
fn key_to_der(key: &rcgen::KeyPair) -> (out: Vec<u8>)
    requires
        holds_private_key(*key),
    ensures
        out@ == key_der(*key),
{
    key.serialize_der()
}

/// Calls [`rcgen::KeyPair::serialize_pem`]: the text of the key pair, which can
/// be read. Its line ends are those of the machine. It panics on a key pair that
/// does not hold its private key.
#[verifier::external_body]
fn key_to_pem(key: &rcgen::KeyPair) -> (out: String)
    requires
        holds_private_key(*key),
    ensures
        is_key_pem(out@, *key),
        key_pem_valid(out@),
{
    key.serialize_pem()
}

// ---------------------------------------------------------------------------
// Reading certificates
// ---------------------------------------------------------------------------

/// Whether `rcgen::CertificateParams::from_ca_cert_pem` reads a text.
pub uninterp spec fn ca_pem_valid(text: Seq<char>) -> bool;

/// Whether parameters are what a text holds.
pub uninterp spec fn read_from(params: rcgen::CertificateParams, text: Seq<char>) -> bool;

/// Whether `rcgen::KeyPair::from_pem` reads a text, if it gets the random bytes
/// that it may ask for.
pub uninterp spec fn key_pem_valid(text: Seq<char>) -> bool;

/// Whether `rcgen::KeyPair::from_pem` asks for random bytes to read a text, so
/// that it may fail.
pub uninterp spec fn key_read_may_fail(text: Seq<char>) -> bool;

/// Whether a key pair is what a text holds.
pub uninterp spec fn key_read_from(key: rcgen::KeyPair, text: Seq<char>) -> bool;

/// Whether parameters have the same names and are as much those of an authority.
pub open spec fn same_names(a: rcgen::CertificateParams, b: rcgen::CertificateParams) -> bool {
    &&& is_authority(a) == is_authority(b)
    &&& forall|name: Seq<char>| #[trigger] has_common_name(a, name) == has_common_name(b, name)
    &&& forall|host: Seq<char>| #[trigger] names_host(a, host) == names_host(b, host)
}

/// Whether parameters say what the certificate said whose text this is, if it
/// was made plainly.
pub open spec fn as_written(params: rcgen::CertificateParams, text: Seq<char>) -> bool {
    forall|cert: rcgen::Certificate| #[trigger]
        is_certificate_pem(text, cert) && plainly_made(params_of(cert)) ==> same_names(
            params,
            params_of(cert),
        ) && writable(params)
}

/// Whether a key pair is the one whose text this is.
pub open spec fn key_as_written(key: rcgen::KeyPair, text: Seq<char>) -> bool {
    forall|written: rcgen::KeyPair| #[trigger]
        is_key_pem(text, written) ==> key_der(key) == key_der(written)
}

/// Calls [`rcgen::CertificateParams::from_ca_cert_pem`]: what a certificate says
/// that is to sign others, if the text is one. If the text is that of a
/// certificate that was made plainly, its names are read back, as is whether it
/// is that of an authority, and it can be written again.
#[verifier::external_body]
fn read_params(text: &str) -> (r: Result<rcgen::CertificateParams, rcgen::Error>)
    ensures
        r is Ok == ca_pem_valid(text@),
        r matches Ok(params) ==> read_from(params, text@) && as_written(params, text@),
{
    rcgen::CertificateParams::from_ca_cert_pem(text)
}

/// Calls [`rcgen::KeyPair::from_pem`]: the key pair that a text holds, with its
/// private key, if the text is one. Its bytes are those of the text. It fails on
/// other texts, and where it asks for random bytes and gets none.
#[verifier::external_body]
fn read_key(text: &str) -> (r: Result<rcgen::KeyPair, rcgen::Error>)
    ensures
        r is Ok ==> key_pem_valid(text@),
        r is Err ==> !key_pem_valid(text@) || key_read_may_fail(text@),
        r matches Ok(key) ==> key_read_from(key, text@) && key_as_written(key, text@)
            && holds_private_key(key),
{
    rcgen::KeyPair::from_pem(text)
}

// ---------------------------------------------------------------------------
// The authority
// ---------------------------------------------------------------------------

/// What can go wrong with a certificate. All hold the text to show.
#[derive(Debug, Clone)]
pub enum CaError {
    /// The name cannot stand in a certificate.
    InvalidName(String),
    /// What was kept of the authority cannot be used.
    Unreadable(String),
    /// No key could be made, or signing failed.
    Failed(String),
}

/// A certificate and its key, with which other certificates are signed.
pub struct Authority {
    cert: rcgen::Certificate,
    key: rcgen::KeyPair,
}

/// An authority that was just made, and the texts by which it is kept.
pub struct NewAuthority {
    pub authority: Authority,
    pub cert_pem: String,
    pub key_pem: String,
}

/// Where an authority comes from.
pub enum Obtained {
    /// It was kept; there is nothing to write.
    Kept(Authority),
    /// It was just made; its texts are to be kept.
    Made(NewAuthority),
}

/// A certificate for a host, with its chain and its key, in bytes.
pub struct Leaf {
    pub chain: Vec<Vec<u8>>,
    pub key: Vec<u8>,
}

/// What a [`Leaf`] holds.
#[verifier::ext_equal]
pub struct LeafView {
    pub chain: Seq<Seq<u8>>,
    pub key: Seq<u8>,
}

impl View for Leaf {
    type V = LeafView;

    open spec fn view(&self) -> LeafView {
        LeafView { chain: self.chain@.map_values(|der: Vec<u8>| der@), key: self.key@ }
    }
}

/// The name that the authority has.
pub open spec fn authority_name() -> Seq<char> {
    "Hermes Proxy CA"@
}

/// The leaf that a certificate of `authority` and its key make: the certificate,
/// followed by the authority's own, and the key.
pub open spec fn leaf_of(
    cert: rcgen::Certificate,
    key: rcgen::KeyPair,
    authority: Authority,
) -> LeafView {
    LeafView {
        chain: seq![certificate_der(cert), certificate_der(authority.certificate())],
        key: key_der(key),
    }
}

/// Whether `leaf` is made of a certificate for `host` alone that `authority`
/// signed, and of its key.
pub open spec fn is_leaf(
    leaf: LeafView,
    cert: rcgen::Certificate,
    key: rcgen::KeyPair,
    authority: Authority,
    host: Seq<char>,
) -> bool {
    &&& names_host(params_of(cert), host)
    &&& has_common_name(params_of(cert), host)
    &&& !is_authority(params_of(cert))
    &&& issued_by(cert, key, authority.certificate(), authority.key_pair())
    &&& leaf == leaf_of(cert, key, authority)
}

/// Whether `leaf` is what `authority` issues for `host`.
pub open spec fn is_leaf_for(leaf: LeafView, authority: Authority, host: Seq<char>) -> bool {
    exists|cert: rcgen::Certificate, key: rcgen::KeyPair| #[trigger]
        is_leaf(leaf, cert, key, authority, host)
}

/// Whether `made` is a new authority: a certificate of an authority for its name
/// that is signed with its own key, and the texts of both, which can be read.
pub open spec fn is_created(made: NewAuthority) -> bool {
    let cert = made.authority.certificate();
    let key = made.authority.key_pair();
    &&& names_host(params_of(cert), authority_name())
    &&& has_common_name(params_of(cert), default_common_name())
    &&& is_authority(params_of(cert))
    &&& plainly_made(params_of(cert))
    &&& self_issued(cert, key)
    &&& is_certificate_pem(made.cert_pem@, cert)
    &&& is_key_pem(made.key_pem@, key)
    &&& ca_pem_valid(made.cert_pem@)
    &&& key_pem_valid(made.key_pem@)
}

/// Whether `authority` is what the two texts hold: the certificate says what the
/// one holds, certifies the key that the other holds, and is signed with it.
pub open spec fn is_loaded(
    authority: Authority,
    cert_pem: Seq<char>,
    key_pem: Seq<char>,
) -> bool {
    let params = params_of(authority.certificate());
    let key = authority.key_pair();
    &&& ca_pem_valid(cert_pem)
    &&& key_pem_valid(key_pem)
    &&& read_from(params, cert_pem) && as_written(params, cert_pem) && writable(params)
    &&& key_read_from(key, key_pem) && key_as_written(key, key_pem)
    &&& self_issued(authority.certificate(), key)
}

/// Whether the certificate that a text holds may be one that cannot be written
/// again.
pub open spec fn may_be_unwritable(cert_pem: Seq<char>) -> bool {
    exists|params: rcgen::CertificateParams| #[trigger]
        read_from(params, cert_pem) && as_written(params, cert_pem) && !writable(params)
}

/// Whether signing what one text holds with the key that the other holds may
/// fail.
pub open spec fn resigning_may_fail(cert_pem: Seq<char>, key_pem: Seq<char>) -> bool {
    exists|params: rcgen::CertificateParams, key: rcgen::KeyPair|
        read_from(params, cert_pem) && key_read_from(key, key_pem) && #[trigger] signing_may_fail(
            params,
            key,
        )
}

/// Whether loading an authority from two readable texts may fail all the same:
/// for want of random bytes.
pub open spec fn chance_decides(cert_pem: Seq<char>, key_pem: Seq<char>) -> bool {
    key_read_may_fail(key_pem) || resigning_may_fail(cert_pem, key_pem)
}

/// Whether loading an authority from two texts may come out as `r`.
pub open spec fn load_gives(
    cert_pem: Seq<char>,
    key_pem: Seq<char>,
    r: Result<Authority, CaError>,
) -> bool {
    match r {
        Ok(authority) => is_loaded(authority, cert_pem, key_pem),
        Err(e) => {
            &&& e is Unreadable
            &&& {
                ||| !ca_pem_valid(cert_pem)
                ||| !key_pem_valid(key_pem)
                ||| may_be_unwritable(cert_pem)
                ||| chance_decides(cert_pem, key_pem)
            }
        },
    }
}

/// Whether asking for the authority may come out as `r`, given the texts by which
/// one is kept, if there are any.
pub open spec fn obtaining_gives(
    kept: Option<(Seq<char>, Seq<char>)>,
    r: Result<Obtained, CaError>,
) -> bool {
    match (kept, r) {
        (Some((cert_pem, key_pem)), Ok(Obtained::Kept(authority))) => load_gives(
            cert_pem,
            key_pem,
            Ok(authority),
        ),
        (Some((cert_pem, key_pem)), Err(e)) => load_gives(cert_pem, key_pem, Err(e)),
        (None, Ok(Obtained::Made(made))) => is_created(made),
        (None, Err(e)) => e is Failed,
        _ => false,
    }
}

/// Puts a leaf together from what signing gave: the chain and the key in bytes,
/// or the failure.
pub fn assemble(
    signed: Result<rcgen::Certificate, rcgen::Error>,
    key: &rcgen::KeyPair,
    authority: &Authority,
) -> (r: Result<Leaf, CaError>)
    requires
        holds_private_key(*key),
    ensures
        match signed {
            Ok(cert) => r is Ok && r->Ok_0@ == leaf_of(cert, *key, *authority),
            Err(_) => r is Err && r->Err_0 is Failed,
        },
{
    match signed {
        Ok(cert) => {
            let mut chain: Vec<Vec<u8>> = Vec::new();
            chain.push(to_der(&cert));
            chain.push(to_der(&authority.cert));
            let leaf = Leaf { chain, key: key_to_der(key) };
            assert(leaf@ =~= leaf_of(cert, *key, *authority));
            Ok(leaf)
        },
        Err(e) => Err(CaError::Failed(e.to_string())),
    }
}

/// Puts a new authority together from what signing gave: the certificate, its
/// key and their texts, or the failure.
pub fn assemble_authority(
    signed: Result<rcgen::Certificate, rcgen::Error>,
    key: rcgen::KeyPair,
) -> (r: Result<NewAuthority, CaError>)
    requires
        holds_private_key(key),
        signed matches Ok(cert) ==> writable(params_of(cert)),
    ensures
        match signed {
            Ok(cert) => {
                &&& r is Ok
                &&& r->Ok_0.authority.certificate() == cert
                &&& r->Ok_0.authority.key_pair() == key
                &&& is_certificate_pem(r->Ok_0.cert_pem@, cert)
                &&& is_key_pem(r->Ok_0.key_pem@, key)
                &&& plainly_made(params_of(cert)) ==> ca_pem_valid(r->Ok_0.cert_pem@)
                &&& key_pem_valid(r->Ok_0.key_pem@)
            },
            Err(_) => r is Err && r->Err_0 is Failed,
        },
{
    match signed {
        Ok(cert) => {
            let cert_pem = to_pem(&cert);
            let key_pem = key_to_pem(&key);
            Ok(NewAuthority { authority: Authority { cert, key }, cert_pem, key_pem })
        },
        Err(e) => Err(CaError::Failed(e.to_string())),
    }
}

/// Puts an authority together again from what signing gave.
pub fn restore(signed: Result<rcgen::Certificate, rcgen::Error>, key: rcgen::KeyPair) -> (r: Result<
    Authority,
    CaError,
>)
    requires
        signed matches Ok(cert) ==> writable(params_of(cert)),
    ensures
        match signed {
            Ok(cert) => r is Ok && r->Ok_0.certificate() == cert && r->Ok_0.key_pair() == key,
            Err(_) => r is Err && r->Err_0 is Unreadable,
        },
{
    match signed {
        Ok(cert) => Ok(Authority { cert, key }),
        Err(e) => Err(CaError::Unreadable(e.to_string())),
    }
}

impl Authority {
    /// Its certificate could be written once, and so can what names it.
    #[verifier::type_invariant]
    closed spec fn inv(self) -> bool {
        writable(params_of(self.cert))
    }

    /// The certificate of the authority.
    pub closed spec fn certificate(self) -> rcgen::Certificate {
        self.cert
    }

    /// The key that it signs with.
    pub closed spec fn key_pair(self) -> rcgen::KeyPair {
        self.key
    }

    /// Makes a new authority, for which a key is drawn. What comes of that and
    /// of signing is left to [`assemble_authority`].
    pub fn create() -> (r: Result<NewAuthority, CaError>)
        ensures
            match r {
                Ok(made) => is_created(made),
                Err(e) => e is Failed,
            },
    {
        proof {
            reveal_strlit("Hermes Proxy CA");
        }
        let mut params = match new_params("Hermes Proxy CA") {
            Ok(params) => params,
            Err(e) => return Err(CaError::InvalidName(e.to_string())),
        };
        set_authority(&mut params);
        let key = match generate_key() {
            Ok(key) => key,
            Err(e) => return Err(CaError::Failed(e.to_string())),
        };
        assemble_authority(self_sign(params, &key), key)
    }

    /// Reads an authority back from the texts by which it was kept. It fails if
    /// one of them cannot be read, and also if the certificate holds something
    /// that cannot be written again. Otherwise it fails only for want of random
    /// bytes, where reading the key or signing asks for some.
    pub fn load(cert_pem: &str, key_pem: &str) -> (r: Result<Authority, CaError>)
        ensures
            load_gives(cert_pem@, key_pem@, r),
            !ca_pem_valid(cert_pem@) || !key_pem_valid(key_pem@) ==> r is Err,
            (forall|params: rcgen::CertificateParams| #[trigger]
                read_from(params, cert_pem@) ==> !writable(params)) ==> r is Err,
    {
        let params = match read_params(cert_pem) {
            Ok(params) => params,
            Err(e) => return Err(CaError::Unreadable(e.to_string())),
        };
        let key = match read_key(key_pem) {
            Ok(key) => key,
            Err(e) => return Err(CaError::Unreadable(e.to_string())),
        };
        if !can_write(&params) {
            return Err(
                CaError::Unreadable("the certificate cannot be written again".to_string()),
            );
        }
        restore(self_sign(params, &key), key)
    }

    /// Issues a certificate for `host`, for which a key is drawn. The name is
    /// refused exactly if it is not ASCII. What comes of drawing and signing is
    /// left to [`assemble`].
    pub fn issue(&self, host: &str) -> (r: Result<Leaf, CaError>)
        ensures
            match r {
                Ok(leaf) => is_ascii_chars(host@) && is_leaf_for(leaf@, *self, host@),
                Err(e) => if is_ascii_chars(host@) {
                    e is Failed
                } else {
                    e is InvalidName
                },
            },
    {
        proof {
            use_type_invariant(self);
        }
        let mut params = match new_params(host) {
            Ok(params) => params,
            Err(e) => return Err(CaError::InvalidName(e.to_string())),
        };
        set_common_name(&mut params, host);
        let key = match generate_key() {
            Ok(key) => key,
            Err(e) => return Err(CaError::Failed(e.to_string())),
        };
        let signed = sign(params, &key, &self.cert, &self.key);
        let ghost outcome = signed;
        let r = assemble(signed, &key, self);
        proof {
            if r is Ok {
                assert(is_leaf(r->Ok_0@, outcome->Ok_0, key, *self, host@));
                assert(is_leaf_for(r->Ok_0@, *self, host@));
            }
        }
        r
    }
}

/// The authority: the one that is kept by two texts, else a new one whose texts
/// are to be kept. One that is kept but cannot be loaded is not replaced.
pub fn load_or_create_ca(kept: Option<(&str, &str)>) -> (r: Result<Obtained, CaError>)
    ensures
        match kept {
            Some((cert_pem, key_pem)) => obtaining_gives(Some((cert_pem@, key_pem@)), r),
            None => obtaining_gives(None, r),
        },
{
    match kept {
        Some((cert_pem, key_pem)) => match Authority::load(cert_pem, key_pem) {
            Ok(authority) => Ok(Obtained::Kept(authority)),
            Err(e) => Err(e),
        },
        None => match Authority::create() {
            Ok(made) => Ok(Obtained::Made(made)),
            Err(e) => Err(e),
        },
    }
}

// ---------------------------------------------------------------------------
// The memory of issued certificates
// ---------------------------------------------------------------------------

/// The leaf of each host, so that it is issued once.
pub struct LeafCache {
    leaves: StringHashMap<Leaf>,
}

impl View for LeafCache {
    type V = Map<Seq<char>, LeafView>;

    closed spec fn view(&self) -> Map<Seq<char>, LeafView> {
        self.leaves@.map_values(|leaf: Leaf| leaf@)
    }
}

fn copy_leaf(leaf: &Leaf) -> (out: Leaf)
    ensures
        out@ == leaf@,
{
    let mut chain: Vec<Vec<u8>> = Vec::new();
    let ghost want = leaf@.chain;
    let mut i: usize = 0;
    while i < leaf.chain.len()
        invariant
            i <= leaf.chain@.len(),
            want == leaf@.chain,
            chain@.map_values(|der: Vec<u8>| der@) =~= want.take(i as int),
        decreases leaf.chain@.len() - i,
    {
        let ghost before = chain@.map_values(|der: Vec<u8>| der@);
        chain.push(slice_to_vec(leaf.chain[i].as_slice()));
        assert(chain@.map_values(|der: Vec<u8>| der@) =~= before.push(want[i as int]));
        assert(want.take(i as int + 1) =~= want.take(i as int).push(want[i as int]));
        i += 1;
    }
    assert(want.take(i as int) =~= want);
    let out = Leaf { chain, key: slice_to_vec(leaf.key.as_slice()) };
    assert(out@ =~= leaf@);
    out
}

impl LeafCache {
    /// Nothing was issued yet.
    pub fn new() -> (cache: LeafCache)
        ensures
            cache@ == Map::<Seq<char>, LeafView>::empty(),
    {
        let cache = LeafCache { leaves: StringHashMap::new() };
        assert(cache@ =~= Map::<Seq<char>, LeafView>::empty());
        cache
    }

    /// What was issued for `host`.
    pub fn get(&self, host: &str) -> (r: Option<Leaf>)
        ensures
            match r {
                Some(leaf) => self@.contains_key(host@) && self@[host@] == leaf@,
                None => !self@.contains_key(host@),
            },
    {
        match self.leaves.get(host) {
            Some(leaf) => Some(copy_leaf(leaf)),
            None => None,
        }
    }

    /// Remembers what came of issuing for `host`, if it is a leaf.
    pub fn remember(&mut self, host: &str, issued: Result<Leaf, CaError>) -> (r: Result<
        Leaf,
        CaError,
    >)
        ensures
            match issued {
                Ok(leaf) => {
                    &&& r is Ok && r->Ok_0@ == leaf@
                    &&& final(self)@ == old(self)@.insert(host@, leaf@)
                },
                Err(e) => r == Err::<Leaf, _>(e) && final(self)@ == old(self)@,
            },
    {
        match issued {
            Ok(leaf) => {
                let out = copy_leaf(&leaf);
                let ghost before = self@;
                let ghost added = leaf@;
                self.leaves.insert(host.to_string(), leaf);
                assert(self@ =~= before.insert(host@, added));
                Ok(out)
            },
            Err(e) => Err(e),
        }
    }

    /// The leaf for `host`: the one that is kept, else one that is issued and
    /// kept.
    pub fn leaf_for(&mut self, authority: &Authority, host: &str) -> (r: Result<Leaf, CaError>)
        ensures
            old(self)@.contains_key(host@) ==> {
                &&& r is Ok && r->Ok_0@ == old(self)@[host@]
                &&& final(self)@ == old(self)@
            },
            !old(self)@.contains_key(host@) ==> match r {
                Ok(leaf) => {
                    &&& is_ascii_chars(host@) && is_leaf_for(leaf@, *authority, host@)
                    &&& final(self)@ == old(self)@.insert(host@, leaf@)
                },
                Err(e) => {
                    &&& if is_ascii_chars(host@) {
                        e is Failed
                    } else {
                        e is InvalidName
                    }
                    &&& final(self)@ == old(self)@
                },
            },
    {
        if let Some(leaf) = self.get(host) {
            return Ok(leaf);
        }
        let issued = authority.issue(host);
        self.remember(host, issued)
    }
}

// ---------------------------------------------------------------------------
// Laws
// ---------------------------------------------------------------------------

/// What was kept of a new authority is read back as the same authority: the same
/// key, and a certificate with the same names that is again that of an authority
/// and signed with that key. Both texts can be read, so that only a want of
/// random bytes can keep it from being loaded.
pub proof fn kept_authority_is_read_back(made: NewAuthority)
    requires
        is_created(made),
    ensures
        ca_pem_valid(made.cert_pem@),
        key_pem_valid(made.key_pem@),
        !may_be_unwritable(made.cert_pem@),
        forall|loaded: Authority| #[trigger]
            is_loaded(loaded, made.cert_pem@, made.key_pem@) ==> {
                let params = params_of(loaded.certificate());
                &&& key_der(loaded.key_pair()) == key_der(made.authority.key_pair())
                &&& same_names(params, params_of(made.authority.certificate()))
                &&& names_host(params, authority_name())
                &&& has_common_name(params, default_common_name())
                &&& is_authority(params)
                &&& self_issued(loaded.certificate(), loaded.key_pair())
            },
{
    let cert = made.authority.certificate();
    let key = made.authority.key_pair();
    assert(is_certificate_pem(made.cert_pem@, cert));
    assert(is_key_pem(made.key_pem@, key));
}

/// The authority of the first run is that of later runs: where the texts of the
/// first one are kept, the next one has the same key and the same names, and
/// there is nothing to write. Only a want of random bytes can keep it from being
/// had.
pub proof fn authority_is_reused(
    first: Result<Obtained, CaError>,
    second: Result<Obtained, CaError>,
    made: NewAuthority,
)
    requires
        obtaining_gives(None, first),
        first == Ok::<Obtained, CaError>(Obtained::Made(made)),
        obtaining_gives(Some((made.cert_pem@, made.key_pem@)), second),
    ensures
        match second {
            Ok(Obtained::Kept(again)) => {
                let params = params_of(again.certificate());
                &&& key_der(again.key_pair()) == key_der(made.authority.key_pair())
                &&& same_names(params, params_of(made.authority.certificate()))
                &&& names_host(params, authority_name())
                &&& has_common_name(params, default_common_name())
                &&& is_authority(params)
                &&& self_issued(again.certificate(), again.key_pair())
            },
            Ok(Obtained::Made(_)) => false,
            Err(_) => chance_decides(made.cert_pem@, made.key_pem@),
        },
{
    kept_authority_is_read_back(made);
}

/// Whether every leaf that is kept was issued by `authority` for its host.
pub open spec fn all_issued_by(cache: Map<Seq<char>, LeafView>, authority: Authority) -> bool {
    forall|host: Seq<char>| #[trigger]
        cache.contains_key(host) ==> is_leaf_for(cache[host], authority, host)
}

/// A cache that is used with one authority only ever gives leaves that this
/// authority issued for the host, and keeps what it has.
pub proof fn kept_leaves_are_issued(
    cache: Map<Seq<char>, LeafView>,
    authority: Authority,
    host: Seq<char>,
    leaf: LeafView,
)
    requires
        all_issued_by(cache, authority),
        !cache.contains_key(host),
        is_leaf_for(leaf, authority, host),
    ensures
        all_issued_by(Map::<Seq<char>, LeafView>::empty(), authority),
        all_issued_by(cache.insert(host, leaf), authority),
        cache.insert(host, leaf)[host] == leaf,
        forall|other: Seq<char>| #[trigger]
            cache.contains_key(other) ==> cache.insert(host, leaf).contains_key(other)
                && cache.insert(host, leaf)[other] == cache[other],
{
    let next = cache.insert(host, leaf);
    assert forall|h: Seq<char>| #[trigger] next.contains_key(h) implies is_leaf_for(
        next[h],
        authority,
        h,
    ) by {
        if h != host {
            assert(cache.contains_key(h));
        }
    }
}

// ---------------------------------------------------------------------------
// Instructions
// ---------------------------------------------------------------------------

/// How to install the authority's certificate.
pub open spec fn instructions(cert_path: Seq<char>) -> Seq<Seq<char>> {
    seq![
        ""@,
        "Hermes root CA: "@ + cert_path,
        "Install into your trust store to intercept HTTPS:"@,
        "  Linux (NSS):"@,
        "    certutil -d sql:$HOME/.pki/nssdb -A -t \"CT,C,C\" -n \"Hermes Proxy CA\" -i "@
            + cert_path,
        "  macOS:"@,
        "    sudo security add-trusted-cert -d -r trustRoot -k /Library/Keychains/System.keychain "@
            + cert_path,
        ""@,
        "Test with:"@,
        "  curl -x http://localhost:8080 --cacert "@ + cert_path + " https://httpbin.org/get"@,
    ]
}

fn joined(a: &str, b: &str, c: &str) -> (out: String)
    ensures
        out@ == a@ + b@ + c@,
{
    let mut out = a.to_string();
    out.append(b);
    out.append(c);
    out
}

/// The lines that say how to install the authority's certificate.
pub fn install_instructions(cert_path: &str) -> (out: Vec<String>)
    ensures
        crate::text::texts(out@) == instructions(cert_path@),
{
    let mut out: Vec<String> = Vec::new();
    out.push("".to_string());
    out.push(joined("Hermes root CA: ", cert_path, ""));
    out.push("Install into your trust store to intercept HTTPS:".to_string());
    out.push("  Linux (NSS):".to_string());
    out.push(
        joined(
            "    certutil -d sql:$HOME/.pki/nssdb -A -t \"CT,C,C\" -n \"Hermes Proxy CA\" -i ",
            cert_path,
            "",
        ),
    );
    out.push("  macOS:".to_string());
    out.push(
        joined(
            "    sudo security add-trusted-cert -d -r trustRoot -k /Library/Keychains/System.keychain ",
            cert_path,
            "",
        ),
    );
    out.push("".to_string());
    out.push("Test with:".to_string());
    out.push(
        joined(
            "  curl -x http://localhost:8080 --cacert ",
            cert_path,
            " https://httpbin.org/get",
        ),
    );
    proof {
        reveal_strlit("");
        let a = "Hermes root CA: "@ + cert_path@;
        let b =
            "    certutil -d sql:$HOME/.pki/nssdb -A -t \"CT,C,C\" -n \"Hermes Proxy CA\" -i "@
            + cert_path@;
        let c =
            "    sudo security add-trusted-cert -d -r trustRoot -k /Library/Keychains/System.keychain "@
            + cert_path@;
        assert(a + ""@ =~= a);
        assert(b + ""@ =~= b);
        assert(c + ""@ =~= c);
        assert(crate::text::texts(out@) =~= instructions(cert_path@));
    }
    out
}

} // verus!
