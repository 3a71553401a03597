//! What holds of the files that TLS settings lead to and of what is read there.

use crate::config::UpstreamTlsView;
use crate::forward::CauseView;
use crate::mtls::{
    cache_key, files_for, material_of, provider_in, provider_name, providers_of, quoted,
    server_name_of, CertificateProviderView, FileWatcherConfigView, MtlsClientPool, MtlsSupport,
    TlsFilesView, TlsMaterialView,
};
use crate::pem::{
    anchors_of, certificates_of, loaded_certificates, loaded_key, loaded_keys, loaded_roots,
    pem_certificates, pem_pkcs8_keys, pem_rsa_keys, preferred_key, trust_anchor, FileReadView,
    KeyFormat,
};
use crate::text::joined;
use vstd::prelude::*;

verus! {

/// A file of a provider is the one that its configuration names. Where it names
/// none the message tells the provider and the field, and where there is no such
/// field the message tells it.
pub proof fn law_provider_names_its_files(
    config: FileWatcherConfigView,
    field: Seq<char>,
    provider: Seq<char>,
)
    ensures
        ({
            let path = if field == "certificate_file"@ {
                config.certificate_file
            } else if field == "private_key_file"@ {
                config.private_key_file
            } else {
                config.ca_certificate_file
            };
            if field == "certificate_file"@ || field == "private_key_file"@ || field
                == "ca_certificate_file"@ {
                &&& path is Some ==> config.required_path(field, provider) == Ok::<
                    Seq<char>,
                    Seq<char>,
                >(path->0)
                &&& path is None ==> config.required_path(field, provider) == Err::<
                    Seq<char>,
                    Seq<char>,
                >(
                    "certificate_providers["@ + quoted(provider) + "].config."@ + field
                        + " is required"@,
                )
            } else {
                config.required_path(field, provider) == Err::<Seq<char>, Seq<char>>(
                    "unknown file watcher field "@ + field,
                )
            }
        }),
{
}

/// A provider is the last entry of its name, and there is none exactly where no
/// entry has the name.
pub proof fn law_last_provider_of_name_counts(
    entries: Seq<(Seq<char>, CertificateProviderView)>,
    name: Seq<char>,
    at: int,
)
    requires
        -1 <= at < entries.len(),
        at >= 0 ==> entries[at].0 == name,
        forall|k: int| at < k < entries.len() ==> (#[trigger] entries[k]).0 != name,
    ensures
        providers_of(entries).dom().contains(name) <==> at >= 0,
        at >= 0 ==> providers_of(entries)[name] == entries[at].1,
        at >= 0 ==> provider_in(providers_of(entries), name) == Ok::<
            FileWatcherConfigView,
            Seq<char>,
        >(entries[at].1.config),
        at < 0 ==> provider_in(providers_of(entries), name) == Err::<
            FileWatcherConfigView,
            Seq<char>,
        >("certificate_providers["@ + quoted(name) + "] not found"@),
    decreases entries.len(),
{
    if entries.len() > 0 {
        let fewer = entries.drop_last();
        let n = entries.len() - 1;
        if at < n {
            assert(entries[n].0 != name);
            assert forall|k: int| at < k < fewer.len() implies (#[trigger] fewer[k]).0 != name by {
                assert(fewer[k] == entries[k]);
            }
            law_last_provider_of_name_counts(fewer, name, at);
        }
    }
}

/// A provider that is not named is the one called `default`.
pub proof fn law_unnamed_provider_is_default(name: Seq<char>)
    ensures
        provider_name(None) == "default"@,
        provider_name(Some(name)) == name,
{
}

/// A client is kept under its server name, its two providers and its protocols.
pub proof fn law_client_key_tells_settings(tls: UpstreamTlsView)
    ensures
        cache_key(tls) == (if tls.sni is Some {
            tls.sni->0
        } else {
            seq![]
        }) + seq!['|'] + provider_name(tls.certificate_provider) + seq!['|'] + provider_name(
            tls.validation_provider,
        ) + seq!['|'] + joined(tls.alpn_protocols, seq![',']),
{
    assert("|"@ =~= seq!['|']) by {
        reveal_strlit("|");
    }
    assert(","@ =~= seq![',']) by {
        reveal_strlit(",");
    }
}

/// A server name is asked for exactly where one is set that is not empty.
pub proof fn law_server_name_is_the_one_set(tls: UpstreamTlsView, name: Seq<char>)
    ensures
        server_name_of(tls) == Some(name) <==> tls.sni == Some(name) && name.len() > 0,
        server_name_of(tls) is None <==> tls.sni is None || tls.sni->0.len() == 0,
{
}

/// The certificate and the key come from the provider of the own certificate,
/// the roots from the provider of the validation. Files are told exactly where
/// both providers are known and name them.
pub proof fn law_files_come_from_both_providers(
    providers: Map<Seq<char>, CertificateProviderView>,
    tls: UpstreamTlsView,
)
    ensures
        ({
            let own = providers[provider_name(tls.certificate_provider)].config;
            let roots = providers[provider_name(tls.validation_provider)].config;
            let files = files_for(providers, tls);
            &&& files is Ok <==> {
                &&& providers.dom().contains(provider_name(tls.certificate_provider))
                &&& providers.dom().contains(provider_name(tls.validation_provider))
                &&& own.certificate_file is Some
                &&& own.private_key_file is Some
                &&& roots.ca_certificate_file is Some
            }
            &&& files is Ok ==> {
                &&& files->Ok_0.certificate_file == own.certificate_file->0
                &&& files->Ok_0.private_key_file == own.private_key_file->0
                &&& files->Ok_0.ca_certificate_file == roots.ca_certificate_file->0
            }
        }),
{
    lemma_fields_differ();
}

proof fn lemma_fields_differ()
    ensures
        "certificate_file"@ != "private_key_file"@,
        "certificate_file"@ != "ca_certificate_file"@,
        "private_key_file"@ != "ca_certificate_file"@,
{
    reveal_strlit("certificate_file");
    reveal_strlit("private_key_file");
    reveal_strlit("ca_certificate_file");
    assert("certificate_file"@[0] == 'c');
    assert("private_key_file"@[0] == 'p');
    assert("certificate_file"@.len() != "ca_certificate_file"@.len());
    assert("ca_certificate_file"@[0] == 'c');
}

/// What is missing first is told: the provider of the own certificate, that of
/// the validation, the certificate, the key, the roots.
pub proof fn law_first_missing_file_is_told(
    providers: Map<Seq<char>, CertificateProviderView>,
    tls: UpstreamTlsView,
)
    ensures
        ({
            let own = provider_name(tls.certificate_provider);
            let roots = provider_name(tls.validation_provider);
            let files = files_for(providers, tls);
            if !providers.dom().contains(own) {
                files == Err::<TlsFilesView, Seq<char>>(
                    "certificate_providers["@ + quoted(own) + "] not found"@,
                )
            } else if !providers.dom().contains(roots) {
                files == Err::<TlsFilesView, Seq<char>>(
                    "certificate_providers["@ + quoted(roots) + "] not found"@,
                )
            } else if providers[own].config.certificate_file is None {
                files == Err::<TlsFilesView, Seq<char>>(
                    "certificate_providers["@ + quoted(own) + "].config."@ + "certificate_file"@
                        + " is required"@,
                )
            } else if providers[own].config.private_key_file is None {
                files == Err::<TlsFilesView, Seq<char>>(
                    "certificate_providers["@ + quoted(own) + "].config."@ + "private_key_file"@
                        + " is required"@,
                )
            } else {
                providers[roots].config.ca_certificate_file is None ==> files == Err::<
                    TlsFilesView,
                    Seq<char>,
                >(
                    "certificate_providers["@ + quoted(roots) + "].config."@
                        + "ca_certificate_file"@ + " is required"@,
                )
            }
        }),
{
    lemma_fields_differ();
}

/// A request to a cluster with TLS uses the client that is kept for the
/// settings. Where none is kept the files for one are told, or why there are
/// none. Without a bootstrap, or with one that could not be loaded, it fails.
pub proof fn law_tls_requests_need_a_client<C>(
    support: MtlsSupport<C>,
    pool: MtlsClientPool<C>,
    text: String,
    cluster: Seq<char>,
    tls: UpstreamTlsView,
)
    ensures
        support.dispatched(cluster, None) is Ok,
        support.dispatched(cluster, None)->Ok_0 is Plain,
        ({
            let outcome = MtlsSupport::<C>::Disabled.dispatched(cluster, Some(tls));
            &&& outcome is Err
            &&& outcome->Err_0.status == 502
            &&& outcome->Err_0.cause == CauseView::Message(
                "cluster "@ + cluster + " requires mTLS but GRPC_XDS_BOOTSTRAP is not configured"@,
            )
        }),
        ({
            let outcome = MtlsSupport::<C>::Error(text).dispatched(cluster, Some(tls));
            &&& outcome is Err
            &&& outcome->Err_0.status == 502
            &&& outcome->Err_0.cause == CauseView::Message(
                "cluster "@ + cluster + " requires mTLS but bootstrap loading failed: "@ + text@,
            )
        }),
        ({
            let outcome = MtlsSupport::Available(pool).dispatched(cluster, Some(tls));
            let files = files_for(pool.providers(), tls);
            let kept = pool.clients().dom().contains(cache_key(tls));
            &&& kept ==> outcome is Ok && outcome->Ok_0 is Reuse && outcome->Ok_0->Reuse_0
                == pool.clients()[cache_key(tls)]
            &&& !kept && files is Ok ==> outcome is Ok && outcome->Ok_0 is Build
                && outcome->Ok_0->Build_0 == files->Ok_0
            &&& !kept && files is Err ==> outcome is Err && outcome->Err_0.status == 502
                && outcome->Err_0.cause == CauseView::Message(
                "cluster "@ + cluster + " mTLS setup failed: "@ + files->Err_0,
            )
        }),
{
}

/// Certificates are those of a file that could be opened and read and that holds
/// one. Otherwise the message tells the step, the file and why.
pub proof fn law_certificates_are_those_of_the_file(
    path: Seq<char>,
    label: Seq<char>,
    text: Seq<char>,
    contents: Seq<u8>,
)
    ensures
        loaded_certificates(path, label, FileReadView::OpenFailed(text)) == Err::<
            Seq<Seq<u8>>,
            Seq<char>,
        >("open "@ + label + " "@ + path + ": "@ + text),
        loaded_certificates(path, label, FileReadView::ReadFailed(text)) == Err::<
            Seq<Seq<u8>>,
            Seq<char>,
        >("parse "@ + label + " "@ + path + ": "@ + text),
        ({
            let parsed = pem_certificates(contents);
            let loaded = loaded_certificates(path, label, FileReadView::Contents(contents));
            &&& loaded == certificates_of(path, label, parsed)
            &&& parsed is Err ==> loaded == Err::<Seq<Seq<u8>>, Seq<char>>(
                "parse "@ + label + " "@ + path + ": "@ + parsed->Err_0,
            )
            &&& parsed is Ok && parsed->Ok_0.len() == 0 ==> loaded == Err::<Seq<Seq<u8>>, Seq<char>>(
                "parse "@ + label + " "@ + path + ": "@ + "no certificates found"@,
            )
            &&& parsed is Ok && parsed->Ok_0.len() > 0 ==> loaded == parsed
        }),
{
}

/// What is parsed of a file of certificates is taken unless it is empty.
pub proof fn law_empty_certificate_files_fail(
    path: Seq<char>,
    label: Seq<char>,
    parsed: Result<Seq<Seq<u8>>, Seq<char>>,
)
    ensures
        certificates_of(path, label, parsed) is Ok <==> parsed is Ok && parsed->Ok_0.len() > 0,
        certificates_of(path, label, parsed) is Ok ==> certificates_of(path, label, parsed)
            == parsed,
        certificates_of(path, label, parsed) is Err ==> certificates_of(path, label, parsed)->Err_0
            == "parse "@ + label + " "@ + path + ": "@ + if parsed is Err {
            parsed->Err_0
        } else {
            "no certificates found"@
        },
{
}

/// Each certificate is made a trust anchor, in their order, and one that cannot
/// be is enough to have none.
pub proof fn law_every_root_is_an_anchor(certificates: Seq<Seq<u8>>)
    ensures
        anchors_of(certificates) is Some <==> forall|i: int|
            0 <= i < certificates.len() ==> trust_anchor(#[trigger] certificates[i]) is Some,
        anchors_of(certificates) is Some ==> {
            &&& anchors_of(certificates)->0.len() == certificates.len()
            &&& forall|i: int|
                0 <= i < certificates.len() ==> Some(anchors_of(certificates)->0[i])
                    == trust_anchor(#[trigger] certificates[i])
        },
    decreases certificates.len(),
{
    if certificates.len() > 0 {
        let fewer = certificates.drop_last();
        let n = certificates.len() - 1;
        law_every_root_is_an_anchor(fewer);
        assert forall|i: int| 0 <= i < n implies #[trigger] certificates[i] == fewer[i] by {}
        if forall|i: int|
            0 <= i < certificates.len() ==> trust_anchor(#[trigger] certificates[i]) is Some {
            assert forall|i: int| 0 <= i < fewer.len() implies trust_anchor(
                #[trigger] fewer[i],
            ) is Some by {
                assert(certificates[i] == fewer[i]);
            }
            assert(trust_anchor(certificates[n]) is Some);
        }
        if anchors_of(certificates) is Some {
            assert forall|i: int| 0 <= i < certificates.len() implies Some(
                anchors_of(certificates)->0[i],
            ) == trust_anchor(#[trigger] certificates[i]) by {
                if i < n {
                    assert(Some(anchors_of(fewer)->0[i]) == trust_anchor(fewer[i]));
                }
            }
        }
    }
}

/// The roots of a file are the anchors of its certificates.
pub proof fn law_roots_are_anchors_of_certificates(path: Seq<char>, read: FileReadView)
    ensures
        ({
            let certificates = loaded_certificates(path, "data-plane CA certificate"@, read);
            let roots = loaded_roots(path, read);
            &&& certificates is Err ==> roots is Err && roots->Err_0 == certificates->Err_0
            &&& certificates is Ok && anchors_of(certificates->Ok_0) is Some ==> roots is Ok
                && roots->Ok_0 == anchors_of(certificates->Ok_0)->0
            &&& certificates is Ok && anchors_of(certificates->Ok_0) is None ==> roots is Err
                && roots->Err_0 == "add "@ + "data-plane CA certificate"@ + " "@ + path + ": "@
                + "invalid peer certificate: BadEncoding"@
        }),
{
}

/// The keys of a file are those of the wanted format, and a failure tells the
/// step, the file and why.
pub proof fn law_keys_are_those_of_the_format(
    path: Seq<char>,
    text: Seq<char>,
    contents: Seq<u8>,
    format: KeyFormat,
)
    ensures
        loaded_keys(path, format, FileReadView::OpenFailed(text)) == Err::<Seq<Seq<u8>>, Seq<char>>(
            "open "@ + "data-plane client private key"@ + " "@ + path + ": "@ + text,
        ),
        loaded_keys(path, format, FileReadView::ReadFailed(text)) == Err::<Seq<Seq<u8>>, Seq<char>>(
            "parse "@ + "data-plane client private key"@ + " "@ + path + ": "@ + text,
        ),
        ({
            let parsed = if format is Pkcs8 {
                pem_pkcs8_keys(contents)
            } else {
                pem_rsa_keys(contents)
            };
            let loaded = loaded_keys(path, format, FileReadView::Contents(contents));
            &&& parsed is Ok ==> loaded == parsed
            &&& parsed is Err ==> loaded == Err::<Seq<Seq<u8>>, Seq<char>>(
                "parse "@ + "data-plane client private key"@ + " "@ + path + ": "@ + parsed->Err_0,
            )
        }),
{
}

/// The key is the first PKCS8 key, or the first RSA key where there is no PKCS8
/// key. A failure to read keys counts only where those keys are looked at.
pub proof fn law_first_key_is_taken(
    path: Seq<char>,
    pkcs8: Result<Seq<Seq<u8>>, Seq<char>>,
    rsa: Result<Seq<Seq<u8>>, Seq<char>>,
)
    ensures
        pkcs8 is Err ==> preferred_key(path, pkcs8, rsa) == Err::<Seq<u8>, Seq<char>>(pkcs8->Err_0),
        pkcs8 is Ok && pkcs8->Ok_0.len() > 0 ==> preferred_key(path, pkcs8, rsa) == Ok::<
            Seq<u8>,
            Seq<char>,
        >(pkcs8->Ok_0[0]),
        pkcs8 is Ok && pkcs8->Ok_0.len() == 0 && rsa is Err ==> preferred_key(path, pkcs8, rsa)
            == Err::<Seq<u8>, Seq<char>>(rsa->Err_0),
        pkcs8 is Ok && pkcs8->Ok_0.len() == 0 && rsa is Ok && rsa->Ok_0.len() > 0 ==> preferred_key(
            path,
            pkcs8,
            rsa,
        ) == Ok::<Seq<u8>, Seq<char>>(rsa->Ok_0[0]),
        pkcs8 is Ok && pkcs8->Ok_0.len() == 0 && rsa is Ok && rsa->Ok_0.len() == 0
            ==> preferred_key(path, pkcs8, rsa) == Err::<Seq<u8>, Seq<char>>(
            "parse "@ + "data-plane client private key"@ + " "@ + path + ": "@
                + "no PKCS8 or RSA keys found"@,
        ),
{
}

/// The key of a file is the preferred one of those in it.
pub proof fn law_key_of_file_is_the_preferred(path: Seq<char>, read: FileReadView)
    ensures
        loaded_key(path, read) == preferred_key(
            path,
            loaded_keys(path, KeyFormat::Pkcs8, read),
            loaded_keys(path, KeyFormat::Rsa, read),
        ),
{
}

/// The material for TLS is the certificates, the key and the roots, each from
/// its own file. The first of them that cannot be had is the failure.
pub proof fn law_material_is_read_from_its_files(
    files: TlsFilesView,
    certificate: FileReadView,
    private_key: FileReadView,
    roots: FileReadView,
)
    ensures
        ({
            let chain = loaded_certificates(
                files.certificate_file,
                "data-plane client certificate"@,
                certificate,
            );
            let key = loaded_key(files.private_key_file, private_key);
            let anchors = loaded_roots(files.ca_certificate_file, roots);
            let material = material_of(files, certificate, private_key, roots);
            &&& chain is Err ==> material == Err::<TlsMaterialView, Seq<char>>(chain->Err_0)
            &&& chain is Ok && key is Err ==> material == Err::<TlsMaterialView, Seq<char>>(
                key->Err_0,
            )
            &&& chain is Ok && key is Ok && anchors is Err ==> material == Err::<
                TlsMaterialView,
                Seq<char>,
            >(anchors->Err_0)
            &&& chain is Ok && key is Ok && anchors is Ok ==> material is Ok
                && material->Ok_0.certificates == chain->Ok_0 && material->Ok_0.private_key
                == key->Ok_0 && material->Ok_0.roots == anchors->Ok_0
        }),
{
}

} // verus!
