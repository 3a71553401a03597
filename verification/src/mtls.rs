//! Connections to upstreams that require mutual TLS.

use crate::config::{UpstreamTls, UpstreamTlsView};
use crate::forward::{failure, Failure, FailureView, BAD_GATEWAY};
use crate::names::NameMap;
use crate::pem::{
    load_certs, load_private_key, load_roots, loaded_certificates, loaded_key, loaded_roots,
    root_anchors, Anchor, FileRead, FileReadView, CERTIFICATE_LABEL,
};
use crate::text::{join, joined, same_text};
use rustls::RootCertStore;
use vstd::prelude::*;
use vstd::string::*;

verus! {

/// A text in quotes, as `Debug` writes it.
pub uninterp spec fn quoted(text: Seq<char>) -> Seq<char>;

/// A text in quotes, as the `Debug` of `str` writes it.
#[verifier::external_body]
fn quote(text: &str) -> (quotation: String)
    ensures
        quotation@ == quoted(text@),
{
    format!("{:?}", text)
}

/// The files that a certificate provider watches.
#[derive(Debug, PartialEq, Eq)]
pub struct FileWatcherConfig {
    pub certificate_file: Option<String>,
    pub private_key_file: Option<String>,
    pub ca_certificate_file: Option<String>,
}

/// What watched files stand for.
#[verifier::ext_equal]
pub struct FileWatcherConfigView {
    pub certificate_file: Option<Seq<char>>,
    pub private_key_file: Option<Seq<char>>,
    pub ca_certificate_file: Option<Seq<char>>,
}

impl DeepView for FileWatcherConfig {
    type V = FileWatcherConfigView;

    open spec fn deep_view(&self) -> FileWatcherConfigView {
        FileWatcherConfigView {
            certificate_file: self.certificate_file.deep_view(),
            private_key_file: self.private_key_file.deep_view(),
            ca_certificate_file: self.ca_certificate_file.deep_view(),
        }
    }
}

/// What a provider says that lacks a file.
pub open spec fn path_required(field: Seq<char>, provider: Seq<char>) -> Seq<char> {
    "certificate_providers["@ + quoted(provider) + "].config."@ + field + " is required"@
}

/// A file of a provider, or else the message that it is required.
pub open spec fn path_or_message(
    path: Option<Seq<char>>,
    field: Seq<char>,
    provider: Seq<char>,
) -> Result<Seq<char>, Seq<char>> {
    match path {
        Some(path) => Ok(path),
        None => Err(path_required(field, provider)),
    }
}

impl FileWatcherConfigView {
    /// The file of a field, or a message.
    pub open spec fn required_path(self, field: Seq<char>, provider: Seq<char>) -> Result<
        Seq<char>,
        Seq<char>,
    > {
        if field == "certificate_file"@ {
            path_or_message(self.certificate_file, field, provider)
        } else if field == "private_key_file"@ {
            path_or_message(self.private_key_file, field, provider)
        } else if field == "ca_certificate_file"@ {
            path_or_message(self.ca_certificate_file, field, provider)
        } else {
            Err("unknown file watcher field "@ + field)
        }
    }
}

impl FileWatcherConfig {
    /// The file of a field, or a message that it is required.
    pub fn required_path(&self, field: &str, provider: &str) -> (outcome: Result<&str, String>)
        ensures
            match outcome {
                Ok(path) => self.deep_view().required_path(field@, provider@) == Ok::<
                    Seq<char>,
                    Seq<char>,
                >(path@),
                Err(text) => self.deep_view().required_path(field@, provider@) == Err::<
                    Seq<char>,
                    Seq<char>,
                >(text@),
            },
    {
        let path: &Option<String> = if same_text(field, "certificate_file") {
            &self.certificate_file
        } else if same_text(field, "private_key_file") {
            &self.private_key_file
        } else if same_text(field, "ca_certificate_file") {
            &self.ca_certificate_file
        } else {
            return Err("unknown file watcher field ".to_owned().concat(field));
        };
        match path {
            Some(path) => Ok(path.as_str()),
            None => Err(
                "certificate_providers[".to_owned().concat(quote(provider).as_str()).concat(
                    "].config.",
                ).concat(field).concat(" is required"),
            ),
        }
    }
}

/// A provider of certificates.
#[derive(Debug, PartialEq, Eq)]
pub struct CertificateProvider {
    pub config: FileWatcherConfig,
}

/// What a provider stands for.
#[verifier::ext_equal]
pub struct CertificateProviderView {
    pub config: FileWatcherConfigView,
}

impl DeepView for CertificateProvider {
    type V = CertificateProviderView;

    open spec fn deep_view(&self) -> CertificateProviderView {
        CertificateProviderView { config: self.config.deep_view() }
    }
}

/// The certificate providers of a gRPC bootstrap, by name.
pub struct GrpcBootstrap {
    certificate_providers: NameMap<CertificateProvider>,
}

impl DeepView for GrpcBootstrap {
    type V = Map<Seq<char>, CertificateProviderView>;

    closed spec fn deep_view(&self) -> Map<Seq<char>, CertificateProviderView> {
        self.certificate_providers.deep_view()
    }
}

/// The providers of a list, of which a later one replaces an earlier one of the
/// same name.
pub open spec fn providers_of(entries: Seq<(Seq<char>, CertificateProviderView)>) -> Map<
    Seq<char>,
    CertificateProviderView,
>
    decreases entries.len(),
{
    if entries.len() == 0 {
        Map::<Seq<char>, CertificateProviderView>::empty()
    } else {
        providers_of(entries.drop_last()).insert(entries.last().0, entries.last().1)
    }
}

/// The configuration of a provider, or the message that there is none.
pub open spec fn provider_in(
    providers: Map<Seq<char>, CertificateProviderView>,
    name: Seq<char>,
) -> Result<FileWatcherConfigView, Seq<char>> {
    if providers.dom().contains(name) {
        Ok(providers[name].config)
    } else {
        Err("certificate_providers["@ + quoted(name) + "] not found"@)
    }
}

impl GrpcBootstrap {
    /// The providers are held in order.
    pub closed spec fn wf(&self) -> bool {
        self.certificate_providers.wf()
    }

    /// The bootstrap with the providers of a list, of which a later one
    /// replaces an earlier one of the same name.
    pub fn from_entries(entries: Vec<(String, CertificateProvider)>) -> (bootstrap: Self)
        ensures
            bootstrap.wf(),
            bootstrap.deep_view() == providers_of(entries.deep_view()),
    {
        let ghost all = entries.deep_view();
        let mut providers: NameMap<CertificateProvider> = NameMap::new();
        let mut rest: Vec<(String, CertificateProvider)> = entries;
        let mut reversed: Vec<(String, CertificateProvider)> = Vec::new();
        while rest.len() > 0
            invariant
                all.len() == rest@.len() + reversed@.len(),
                forall|i: int|
                    0 <= i < rest@.len() ==> all[i] == #[trigger] rest@[i].deep_view(),
                forall|i: int|
                    0 <= i < reversed@.len() ==> all[all.len() - 1 - i]
                        == #[trigger] reversed@[i].deep_view(),
            decreases rest.len(),
        {
            if let Some(entry) = rest.pop() {
                reversed.push(entry);
            }
        }
        proof {
            assert(all.take(0) =~= Seq::<(Seq<char>, CertificateProviderView)>::empty());
            assert(providers.deep_view() =~= providers_of(all.take(0)));
        }
        while reversed.len() > 0
            invariant
                providers.wf(),
                reversed@.len() <= all.len(),
                forall|i: int|
                    0 <= i < reversed@.len() ==> all[all.len() - 1 - i]
                        == #[trigger] reversed@[i].deep_view(),
                providers.deep_view() == providers_of(all.take(all.len() - reversed@.len())),
            decreases reversed.len(),
        {
            let ghost known = providers.deep_view();
            let ghost at = all.len() - reversed@.len();
            proof {
                assert(reversed@[reversed@.len() - 1].deep_view() == all[at]);
                assert(all.take(at + 1).drop_last() =~= all.take(at));
                assert(all.take(at + 1).last() == all[at]);
            }
            if let Some((name, provider)) = reversed.pop() {
                providers.insert(name, provider);
                assert(providers.deep_view() =~= known.insert(all[at].0, all[at].1));
            }
        }
        assert(all.take(all.len() as int) =~= all);
        GrpcBootstrap { certificate_providers: providers }
    }

    /// The configuration of a provider.
    pub fn provider(&self, name: &str) -> (outcome: Result<&FileWatcherConfig, String>)
        requires
            self.wf(),
        ensures
            match outcome {
                Ok(config) => provider_in(self.deep_view(), name@) == Ok::<
                    FileWatcherConfigView,
                    Seq<char>,
                >(config.deep_view()),
                Err(text) => provider_in(self.deep_view(), name@) == Err::<
                    FileWatcherConfigView,
                    Seq<char>,
                >(text@),
            },
    {
        match self.certificate_providers.get(name) {
            Some(provider) => Ok(&provider.config),
            None => Err(
                "certificate_providers[".to_owned().concat(quote(name).as_str()).concat(
                    "] not found",
                ),
            ),
        }
    }
}

/// A provider name, or the one that stands for a missing name.
pub open spec fn provider_name(name: Option<Seq<char>>) -> Seq<char> {
    match name {
        Some(name) => name,
        None => "default"@,
    }
}

/// A provider name, or the one that stands for a missing name.
fn provider_or_default(name: &Option<String>) -> (text: &str)
    ensures
        text@ == provider_name(name.deep_view()),
{
    match name {
        Some(name) => name.as_str(),
        None => "default",
    }
}

/// The key under which the client for TLS settings is kept.
pub open spec fn cache_key(tls: UpstreamTlsView) -> Seq<char> {
    (match tls.sni {
        Some(sni) => sni,
        None => Seq::<char>::empty(),
    }) + "|"@ + provider_name(tls.certificate_provider) + "|"@ + provider_name(
        tls.validation_provider,
    ) + "|"@ + joined(tls.alpn_protocols, ","@)
}

/// The key under which the client for TLS settings is kept.
pub fn mtls_cache_key(tls: &UpstreamTls) -> (key: String)
    ensures
        key@ == cache_key(tls.deep_view()),
{
    let sni: String = match &tls.sni {
        Some(sni) => sni.clone(),
        None => String::new(),
    };
    sni.concat("|").concat(provider_or_default(&tls.certificate_provider)).concat("|").concat(
        provider_or_default(&tls.validation_provider),
    ).concat("|").concat(join(&tls.alpn_protocols, ",").as_str())
}

/// The name that a TLS client asks the server for, where one is set.
pub open spec fn server_name_of(tls: UpstreamTlsView) -> Option<Seq<char>> {
    match tls.sni {
        Some(sni) => if sni.len() > 0 {
            Some(sni)
        } else {
            None
        },
        None => None,
    }
}

/// The name that a TLS client asks the server for, where one is set.
pub fn server_name(tls: &UpstreamTls) -> (name: Option<String>)
    ensures
        name.deep_view() == server_name_of(tls.deep_view()),
{
    match &tls.sni {
        Some(sni) => {
            if sni.as_str().is_empty() {
                None
            } else {
                Some(sni.clone())
            }
        },
        None => None,
    }
}

/// The files that a TLS client is made from.
#[derive(Debug, PartialEq, Eq)]
pub struct TlsFiles {
    pub certificate_file: String,
    pub private_key_file: String,
    pub ca_certificate_file: String,
}

/// What the files of a TLS client stand for.
#[verifier::ext_equal]
pub struct TlsFilesView {
    pub certificate_file: Seq<char>,
    pub private_key_file: Seq<char>,
    pub ca_certificate_file: Seq<char>,
}

impl DeepView for TlsFiles {
    type V = TlsFilesView;

    open spec fn deep_view(&self) -> TlsFilesView {
        TlsFilesView {
            certificate_file: self.certificate_file@,
            private_key_file: self.private_key_file@,
            ca_certificate_file: self.ca_certificate_file@,
        }
    }
}

/// The files that a TLS client is made from: certificate and key of one
/// provider, roots of another. The first thing that is missing is reported.
pub open spec fn files_for(
    providers: Map<Seq<char>, CertificateProviderView>,
    tls: UpstreamTlsView,
) -> Result<TlsFilesView, Seq<char>> {
    let own = provider_name(tls.certificate_provider);
    let roots = provider_name(tls.validation_provider);
    match (provider_in(providers, own), provider_in(providers, roots)) {
        (Err(text), _) => Err(text),
        (Ok(_), Err(text)) => Err(text),
        (Ok(own_files), Ok(root_files)) => match (
            own_files.required_path("certificate_file"@, own),
            own_files.required_path("private_key_file"@, own),
            root_files.required_path("ca_certificate_file"@, roots),
        ) {
            (Err(text), _, _) => Err(text),
            (Ok(_), Err(text), _) => Err(text),
            (Ok(_), Ok(_), Err(text)) => Err(text),
            (Ok(certificate_file), Ok(private_key_file), Ok(ca_certificate_file)) => Ok(
                TlsFilesView { certificate_file, private_key_file, ca_certificate_file },
            ),
        },
    }
}

/// What a TLS client is made from.
pub struct TlsMaterial {
    pub certificates: Vec<Vec<u8>>,
    pub private_key: Vec<u8>,
    pub roots: RootCertStore,
}

/// What the material of a TLS client stands for.
#[verifier::ext_equal]
pub struct TlsMaterialView {
    pub certificates: Seq<Seq<u8>>,
    pub private_key: Seq<u8>,
    pub roots: Seq<Anchor>,
}

impl DeepView for TlsMaterial {
    type V = TlsMaterialView;

    open spec fn deep_view(&self) -> TlsMaterialView {
        TlsMaterialView {
            certificates: self.certificates.deep_view(),
            private_key: self.private_key@,
            roots: root_anchors(self.roots),
        }
    }
}

/// What a TLS client is made from, given what came of reading its files. The
/// certificate is looked at first, then the key, then the roots.
pub open spec fn material_of(
    files: TlsFilesView,
    certificate: FileReadView,
    private_key: FileReadView,
    roots: FileReadView,
) -> Result<TlsMaterialView, Seq<char>> {
    match (
        loaded_certificates(files.certificate_file, CERTIFICATE_LABEL@, certificate),
        loaded_key(files.private_key_file, private_key),
        loaded_roots(files.ca_certificate_file, roots),
    ) {
        (Err(text), _, _) => Err(text),
        (Ok(_), Err(text), _) => Err(text),
        (Ok(_), Ok(_), Err(text)) => Err(text),
        (Ok(certificates), Ok(private_key), Ok(roots)) => Ok(
            TlsMaterialView { certificates, private_key, roots },
        ),
    }
}

/// What a TLS client is made from, given what came of reading its files.
pub fn load_material(
    files: &TlsFiles,
    certificate: &FileRead,
    private_key: &FileRead,
    roots: &FileRead,
) -> (outcome: Result<TlsMaterial, String>)
    ensures
        match outcome {
            Ok(material) => material_of(
                files.deep_view(),
                certificate.deep_view(),
                private_key.deep_view(),
                roots.deep_view(),
            ) == Ok::<TlsMaterialView, Seq<char>>(material.deep_view()),
            Err(text) => material_of(
                files.deep_view(),
                certificate.deep_view(),
                private_key.deep_view(),
                roots.deep_view(),
            ) == Err::<TlsMaterialView, Seq<char>>(text@),
        },
{
    let certificates: Vec<Vec<u8>> = match load_certs(
        files.certificate_file.as_str(),
        CERTIFICATE_LABEL,
        certificate,
    ) {
        Ok(certificates) => certificates,
        Err(text) => {
            return Err(text);
        },
    };
    assert(loaded_certificates(
        files.certificate_file@,
        CERTIFICATE_LABEL@,
        certificate.deep_view(),
    ) == Ok::<Seq<Seq<u8>>, Seq<char>>(certificates.deep_view()));
    let private_key: Vec<u8> = match load_private_key(
        files.private_key_file.as_str(),
        private_key,
    ) {
        Ok(private_key) => private_key,
        Err(text) => {
            return Err(text);
        },
    };
    match load_roots(files.ca_certificate_file.as_str(), roots) {
        Ok(roots) => Ok(TlsMaterial { certificates, private_key, roots }),
        Err(text) => Err(text),
    }
}

/// What is reported where rustls refuses the certificate and the key.
pub fn client_config_error(text: &str) -> (message: String)
    ensures
        message@ == "build data-plane mTLS client config: "@ + text@,
{
    "build data-plane mTLS client config: ".to_owned().concat(text)
}

/// What came of loading the bootstrap.
pub enum BootstrapLoad {
    /// The file could not be opened, with the text of the error.
    OpenFailed(String),
    /// The file could not be parsed, with the text of the error.
    ParseFailed(String),
    /// What the file holds.
    Loaded(GrpcBootstrap),
}

/// The clients for upstreams that require mutual TLS, each made once, and the
/// bootstrap that they are made from.
pub struct MtlsClientPool<C> {
    bootstrap: GrpcBootstrap,
    clients: NameMap<C>,
}

impl<C> MtlsClientPool<C> {
    /// Providers and clients are held in order.
    pub closed spec fn wf(&self) -> bool {
        self.bootstrap.wf() && self.clients.wf()
    }

    /// The providers of the bootstrap.
    pub closed spec fn providers(&self) -> Map<Seq<char>, CertificateProviderView> {
        self.bootstrap.deep_view()
    }

    /// The clients made so far, by the key of their TLS settings.
    pub closed spec fn clients(&self) -> Map<Seq<char>, C> {
        self.clients@
    }

    /// A pool without clients, given what came of loading the bootstrap.
    pub fn from_bootstrap(path: &str, load: BootstrapLoad) -> (outcome: Result<Self, String>)
        requires
            load matches BootstrapLoad::Loaded(bootstrap) ==> bootstrap.wf(),
        ensures
            match load {
                BootstrapLoad::OpenFailed(text) => outcome is Err && outcome->Err_0@
                    == "open gRPC xDS bootstrap "@ + path@ + ": "@ + text@,
                BootstrapLoad::ParseFailed(text) => outcome is Err && outcome->Err_0@
                    == "parse gRPC xDS bootstrap "@ + path@ + ": "@ + text@,
                BootstrapLoad::Loaded(bootstrap) => outcome is Ok && outcome->Ok_0.wf()
                    && outcome->Ok_0.providers() == bootstrap.deep_view()
                    && outcome->Ok_0.clients() == Map::<Seq<char>, C>::empty(),
            },
    {
        match load {
            BootstrapLoad::OpenFailed(text) => Err(
                "open gRPC xDS bootstrap ".to_owned().concat(path).concat(": ").concat(
                    text.as_str(),
                ),
            ),
            BootstrapLoad::ParseFailed(text) => Err(
                "parse gRPC xDS bootstrap ".to_owned().concat(path).concat(": ").concat(
                    text.as_str(),
                ),
            ),
            BootstrapLoad::Loaded(bootstrap) => Ok(
                MtlsClientPool { bootstrap, clients: NameMap::new() },
            ),
        }
    }

    /// The client that was made for such TLS settings.
    pub fn cached(&self, tls: &UpstreamTls) -> (client: Option<&C>)
        requires
            self.wf(),
        ensures
            match client {
                Some(client) => self.clients().dom().contains(cache_key(tls.deep_view()))
                    && self.clients()[cache_key(tls.deep_view())] == *client,
                None => !self.clients().dom().contains(cache_key(tls.deep_view())),
            },
    {
        self.clients.get(mtls_cache_key(tls).as_str())
    }

    /// Keeps the client that was made for TLS settings.
    pub fn remember(&mut self, tls: &UpstreamTls, client: C)
        requires
            old(self).wf(),
        ensures
            final(self).wf(),
            final(self).providers() == old(self).providers(),
            final(self).clients() == old(self).clients().insert(
                cache_key(tls.deep_view()),
                client,
            ),
    {
        self.clients.insert(mtls_cache_key(tls), client);
    }

    /// The files that the client for TLS settings is made from.
    pub fn tls_files(&self, tls: &UpstreamTls) -> (outcome: Result<TlsFiles, String>)
        requires
            self.wf(),
        ensures
            match outcome {
                Ok(files) => files_for(self.providers(), tls.deep_view()) == Ok::<
                    TlsFilesView,
                    Seq<char>,
                >(files.deep_view()),
                Err(text) => files_for(self.providers(), tls.deep_view()) == Err::<
                    TlsFilesView,
                    Seq<char>,
                >(text@),
            },
    {
        let own: &str = provider_or_default(&tls.certificate_provider);
        let roots: &str = provider_or_default(&tls.validation_provider);
        let own_files: &FileWatcherConfig = match self.bootstrap.provider(own) {
            Ok(files) => files,
            Err(text) => {
                return Err(text);
            },
        };
        let root_files: &FileWatcherConfig = match self.bootstrap.provider(roots) {
            Ok(files) => files,
            Err(text) => {
                return Err(text);
            },
        };
        let certificate_file: &str = match own_files.required_path("certificate_file", own) {
            Ok(path) => path,
            Err(text) => {
                return Err(text);
            },
        };
        let private_key_file: &str = match own_files.required_path("private_key_file", own) {
            Ok(path) => path,
            Err(text) => {
                return Err(text);
            },
        };
        let ca_certificate_file: &str = match root_files.required_path(
            "ca_certificate_file",
            roots,
        ) {
            Ok(path) => path,
            Err(text) => {
                return Err(text);
            },
        };
        Ok(
            TlsFiles {
                certificate_file: certificate_file.to_owned(),
                private_key_file: private_key_file.to_owned(),
                ca_certificate_file: ca_certificate_file.to_owned(),
            },
        )
    }
}

/// How a request is sent on.
pub enum Dispatch<'a, C> {
    /// Without TLS.
    Plain,
    /// By a client that was made before.
    Reuse(&'a C),
    /// By a client that is to be made from these files.
    Build(TlsFiles),
}

/// What the way to send a request on stands for.
pub enum DispatchView<C> {
    Plain,
    Reuse(C),
    Build(TlsFilesView),
}

impl<'a, C> Dispatch<'a, C> {
    /// What the way to send a request on stands for.
    pub open spec fn model(&self) -> DispatchView<C> {
        match self {
            Dispatch::Plain => DispatchView::Plain,
            Dispatch::Reuse(client) => DispatchView::Reuse(**client),
            Dispatch::Build(files) => DispatchView::Build(files.deep_view()),
        }
    }
}

/// Whether upstreams that require mutual TLS can be reached.
pub enum MtlsSupport<C> {
    /// No bootstrap is configured.
    Disabled,
    /// The bootstrap is loaded.
    Available(MtlsClientPool<C>),
    /// The bootstrap could not be loaded, with the reason.
    Error(String),
}

/// The path of the bootstrap, given the environment variable that holds it.
pub fn bootstrap_path(variable: Option<String>) -> (path: Option<String>)
    ensures
        path.deep_view() == match variable.deep_view() {
            Some(text) => if text.len() > 0 {
                Some(text)
            } else {
                None
            },
            None => None,
        },
{
    match variable {
        Some(text) => {
            if text.as_str().is_empty() {
                None
            } else {
                Some(text)
            }
        },
        None => None,
    }
}

/// What is answered where a cluster requires mutual TLS and no bootstrap is
/// configured.
pub open spec fn not_configured(cluster: Seq<char>) -> Seq<char> {
    "cluster "@ + cluster + " requires mTLS but GRPC_XDS_BOOTSTRAP is not configured"@
}

/// What is answered where a cluster requires mutual TLS and the bootstrap could
/// not be loaded.
pub open spec fn loading_failed(cluster: Seq<char>, text: Seq<char>) -> Seq<char> {
    "cluster "@ + cluster + " requires mTLS but bootstrap loading failed: "@ + text
}

/// What is answered where no client could be made for a cluster.
pub open spec fn setup_failed(cluster: Seq<char>, text: Seq<char>) -> Seq<char> {
    "cluster "@ + cluster + " mTLS setup failed: "@ + text
}

impl<C> MtlsSupport<C> {
    /// The pool is held in order.
    pub open spec fn wf(&self) -> bool {
        self matches MtlsSupport::Available(pool) ==> pool.wf()
    }

    /// Whether upstreams that require mutual TLS can be reached, given what
    /// came of loading the bootstrap, if one is configured.
    pub fn new(loaded: Option<Result<MtlsClientPool<C>, String>>) -> (support: Self)
        requires
            loaded matches Some(Ok(pool)) ==> pool.wf(),
        ensures
            support.wf(),
            support == match loaded {
                Some(Ok(pool)) => MtlsSupport::Available(pool),
                Some(Err(text)) => MtlsSupport::Error(text),
                None => MtlsSupport::Disabled,
            },
    {
        match loaded {
            Some(Ok(pool)) => MtlsSupport::Available(pool),
            Some(Err(text)) => MtlsSupport::Error(text),
            None => MtlsSupport::Disabled,
        }
    }

    /// How a request to a cluster is sent on: without TLS where the cluster has
    /// no TLS settings; otherwise by the client that was made for such settings,
    /// or by a new one.
    pub open spec fn dispatched(
        &self,
        cluster: Seq<char>,
        tls: Option<UpstreamTlsView>,
    ) -> Result<DispatchView<C>, FailureView> {
        match tls {
            None => Ok(DispatchView::Plain),
            Some(tls) => match self {
                MtlsSupport::Disabled => Err(failure(BAD_GATEWAY, not_configured(cluster))),
                MtlsSupport::Error(text) => Err(
                    failure(BAD_GATEWAY, loading_failed(cluster, text@)),
                ),
                MtlsSupport::Available(pool) => if pool.clients().dom().contains(cache_key(tls)) {
                    Ok(DispatchView::Reuse(pool.clients()[cache_key(tls)]))
                } else {
                    match files_for(pool.providers(), tls) {
                        Ok(files) => Ok(DispatchView::Build(files)),
                        Err(text) => Err(failure(BAD_GATEWAY, setup_failed(cluster, text))),
                    }
                },
            },
        }
    }

    /// How a request to a cluster is sent on. A request to a cluster that
    /// requires mutual TLS fails where that cannot be had.
    pub fn dispatch(&self, cluster: &str, tls: Option<&UpstreamTls>) -> (outcome: Result<
        Dispatch<'_, C>,
        Failure,
    >)
        requires
            self.wf(),
        ensures
            match outcome {
                Ok(dispatch) => self.dispatched(cluster@, tls.deep_view()) == Ok::<
                    DispatchView<C>,
                    FailureView,
                >(dispatch.model()),
                Err(answer) => self.dispatched(cluster@, tls.deep_view()) == Err::<
                    DispatchView<C>,
                    FailureView,
                >(answer.deep_view()),
            },
    {
        let tls: &UpstreamTls = match tls {
            Some(tls) => tls,
            None => {
                return Ok(Dispatch::Plain);
            },
        };
        match self {
            MtlsSupport::Available(pool) => {
                if let Some(client) = pool.cached(tls) {
                    return Ok(Dispatch::Reuse(client));
                }
                match pool.tls_files(tls) {
                    Ok(files) => Ok(Dispatch::Build(files)),
                    Err(text) => Err(setup_failure(cluster, text.as_str())),
                }
            },
            MtlsSupport::Disabled => Err(
                Failure::upstream(
                    "cluster ".to_owned().concat(cluster).concat(
                        " requires mTLS but GRPC_XDS_BOOTSTRAP is not configured",
                    ),
                ),
            ),
            MtlsSupport::Error(text) => Err(
                Failure::upstream(
                    "cluster ".to_owned().concat(cluster).concat(
                        " requires mTLS but bootstrap loading failed: ",
                    ).concat(text.as_str()),
                ),
            ),
        }
    }

    /// Keeps the client that was made for TLS settings, where there is a pool
    /// to keep it in.
    pub fn remember(&mut self, tls: &UpstreamTls, client: C)
        requires
            old(self).wf(),
        ensures
            final(self).wf(),
            match *old(self) {
                MtlsSupport::Available(pool) => *final(self) matches MtlsSupport::Available(after)
                    && after.providers() == pool.providers() && after.clients()
                    == pool.clients().insert(cache_key(tls.deep_view()), client),
                _ => *final(self) == *old(self),
            },
    {
        match self {
            MtlsSupport::Available(pool) => {
                pool.remember(tls, client);
            },
            _ => {},
        }
    }
}

/// The answer where no client could be made for a cluster.
pub fn setup_failure(cluster: &str, text: &str) -> (answer: Failure)
    ensures
        answer.deep_view() == failure(BAD_GATEWAY, setup_failed(cluster@, text@)),
{
    Failure::upstream(
        "cluster ".to_owned().concat(cluster).concat(" mTLS setup failed: ").concat(text),
    )
}

/// What came of checking the certificate of a server.
#[derive(Debug, Clone, Copy, PartialEq, Eq, Structural)]
pub enum PeerCheck {
    /// The certificate is valid for the server name.
    Valid,
    /// The certificate is valid, but not for the server name.
    OtherName,
    /// The certificate is not valid.
    Invalid,
}

/// Whether a server is trusted. The name in its certificate does not matter:
/// workloads are named by identities, not by host names.
pub fn trusts_peer(check: PeerCheck) -> (trusted: bool)
    ensures
        trusted <==> check != PeerCheck::Invalid,
{
    match check {
        PeerCheck::Valid => true,
        PeerCheck::OtherName => true,
        PeerCheck::Invalid => false,
    }
}

} // verus!
