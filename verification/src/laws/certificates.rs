//! What holds of the authority and of the certificates that it issues.

use vstd::prelude::*;

use crate::ca::{
    certificate_der, has_common_name, instructions, is_authority, is_certificate_pem, is_created,
    is_key_pem, is_leaf_for, is_loaded, issued_by, key_der, key_read_from, leaf_of, load_gives,
    names_host, obtaining_gives, params_of, read_from, self_issued, writable_instant, writable_oid,
    Authority, CaError, Instant, LeafView, NewAuthority, Obtained,
};

verus! {

/// A certificate that is handed out for a host names that host, is no authority's,
/// was signed by the authority, and comes with the certificate of the authority
/// behind it and with its own key.
pub proof fn leaves_are_issued_for_their_host(
    leaf: LeafView,
    authority: Authority,
    host: Seq<char>,
)
    requires
        is_leaf_for(leaf, authority, host),
    ensures
        leaf.chain.len() == 2,
        leaf.chain[1] == certificate_der(authority.certificate()),
        exists|cert: rcgen::Certificate, key: rcgen::KeyPair|
            {
                &&& #[trigger] issued_by(cert, key, authority.certificate(), authority.key_pair())
                &&& leaf.chain[0] == certificate_der(cert)
                &&& leaf.key == key_der(key)
                &&& names_host(params_of(cert), host)
                &&& has_common_name(params_of(cert), host)
                &&& !is_authority(params_of(cert))
            },
{
    let (cert, key) = choose|cert: rcgen::Certificate, key: rcgen::KeyPair| #[trigger]
        crate::ca::is_leaf(leaf, cert, key, authority, host);
    assert(issued_by(cert, key, authority.certificate(), authority.key_pair()));
}

/// A leaf holds a certificate and that of the authority behind it, in this order,
/// and the key of the former.
pub proof fn leaves_hold_the_chain(
    cert: rcgen::Certificate,
    key: rcgen::KeyPair,
    authority: Authority,
)
    ensures
        leaf_of(cert, key, authority).chain == seq![
            certificate_der(cert),
            certificate_der(authority.certificate()),
        ],
        leaf_of(cert, key, authority).key == key_der(key),
{
}

/// A new authority may sign for others, has the name that the instructions speak
/// of, is signed with its own key, and its texts are those of its certificate and
/// of that key.
pub proof fn new_authorities_are_their_own(made: NewAuthority)
    requires
        is_created(made),
    ensures
        is_authority(params_of(made.authority.certificate())),
        names_host(params_of(made.authority.certificate()), "Hermes Proxy CA"@),
        has_common_name(params_of(made.authority.certificate()), "rcgen self signed cert"@),
        self_issued(made.authority.certificate(), made.authority.key_pair()),
        is_certificate_pem(made.cert_pem@, made.authority.certificate()),
        is_key_pem(made.key_pem@, made.authority.key_pair()),
{
}

/// An authority that is kept is used as it is and never replaced, not even if it
/// cannot be read; only where none is kept is a new one made.
pub proof fn kept_authorities_are_not_replaced(
    cert_pem: Seq<char>,
    key_pem: Seq<char>,
    r: Result<Obtained, CaError>,
    e: CaError,
)
    ensures
        obtaining_gives(Some((cert_pem, key_pem)), r) ==> match r {
            Ok(Obtained::Kept(authority)) => {
                &&& is_loaded(authority, cert_pem, key_pem)
                &&& read_from(params_of(authority.certificate()), cert_pem)
                &&& key_read_from(authority.key_pair(), key_pem)
                &&& self_issued(authority.certificate(), authority.key_pair())
            },
            Ok(Obtained::Made(_)) => false,
            Err(e) => e is Unreadable,
        },
        obtaining_gives(None, r) ==> match r {
            Ok(Obtained::Kept(_)) => false,
            Ok(Obtained::Made(made)) => is_created(made),
            Err(e) => e is Failed,
        },
        load_gives(cert_pem, key_pem, Err(e)) ==> e is Unreadable && {
            ||| !crate::ca::ca_pem_valid(cert_pem)
            ||| !crate::ca::key_pem_valid(key_pem)
            ||| crate::ca::may_be_unwritable(cert_pem)
            ||| crate::ca::chance_decides(cert_pem, key_pem)
        },
{
}

/// An object identifier can be written if it starts with 0 or 1 and a number below
/// 40, or with 2 and a number that stays below the largest of sixty-four bits when
/// 80 is added to it.
pub proof fn identifiers_start_with_two_numbers(a: u64, b: u64, rest: Seq<u64>)
    ensures
        writable_oid(seq![a, b] + rest) <==> a <= 1 && b < 40 || a == 2 && b + 80 < u64::MAX,
        !writable_oid(Seq::empty()),
        !writable_oid(seq![a]),
{
    let oid = seq![a, b] + rest;
    assert(oid[0] == a && oid[1] == b);
}

/// A point in time can be written with two digits of the year from 1950 to 2049,
/// and otherwise from the year 0 to 9999.
pub proof fn times_can_be_written_for_ten_thousand_years(time: Instant)
    ensures
        1950 <= time.year <= 2049 ==> (writable_instant(time) <==> -7305 * 86400 <= time.seconds
            < 29220 * 86400),
        time.year < 1950 || 2049 < time.year ==> (writable_instant(time) <==> -719528 * 86400
            <= time.seconds < 2932897 * 86400),
{
}

/// Wherever a path belongs into the instructions, it is the one of the
/// certificate.
pub proof fn instructions_name_the_certificate(path: Seq<char>)
    ensures
        instructions(path).len() == 10,
        instructions(path)[0] == Seq::<char>::empty(),
        instructions(path)[1] == "Hermes root CA: "@ + path,
        instructions(path)[2] == "Install into your trust store to intercept HTTPS:"@,
        instructions(path)[3] == "  Linux (NSS):"@,
        instructions(path)[4]
            == "    certutil -d sql:$HOME/.pki/nssdb -A -t \"CT,C,C\" -n \"Hermes Proxy CA\" -i "@
            + path,
        instructions(path)[5] == "  macOS:"@,
        instructions(path)[6]
            == "    sudo security add-trusted-cert -d -r trustRoot -k /Library/Keychains/System.keychain "@
            + path,
        instructions(path)[7] == Seq::<char>::empty(),
        instructions(path)[8] == "Test with:"@,
        instructions(path)[9] == "  curl -x http://localhost:8080 --cacert "@ + path
            + " https://httpbin.org/get"@,
{
    reveal_strlit("");
    assert(""@ =~= Seq::<char>::empty());
}

} // verus!
