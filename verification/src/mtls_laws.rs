//! What holds of connections to upstreams that require mutual TLS.

use crate::config::UpstreamTlsView;
use crate::forward::{failure, FailureView, BAD_GATEWAY};
use crate::mtls::{
    cache_key, files_for, loading_failed, not_configured, provider_name, server_name_of,
    DispatchView, MtlsClientPool, MtlsSupport,
};
use crate::text::joined;
use vstd::prelude::*;

verus! {

/// What stands before the first of a character, and what after it, is known from
/// the whole.
proof fn lemma_first_part(a: Seq<char>, x: Seq<char>, b: Seq<char>, y: Seq<char>, c: char)
    requires
        !a.contains(c),
        !b.contains(c),
        a + seq![c] + x == b + seq![c] + y,
    ensures
        a == b,
        x == y,
{
    let whole = a + seq![c] + x;
    let other = b + seq![c] + y;
    assert(whole.len() == a.len() + 1 + x.len());
    assert(other.len() == b.len() + 1 + y.len());
    if a.len() < b.len() {
        assert(whole[a.len() as int] == c);
        assert(other[a.len() as int] == b[a.len() as int]);
        assert(b.contains(c));
    } else if b.len() < a.len() {
        assert(other[b.len() as int] == c);
        assert(whole[b.len() as int] == a[b.len() as int]);
        assert(a.contains(c));
    }
    assert forall|i: int| 0 <= i < a.len() implies a[i] == b[i] by {
        assert(whole[i] == a[i]);
        assert(other[i] == b[i]);
    }
    assert(a =~= b);
    assert(x.len() == y.len());
    assert forall|i: int| 0 <= i < x.len() implies x[i] == y[i] by {
        assert(whole[a.len() + 1 + i] == x[i]);
        assert(other[a.len() + 1 + i] == y[i]);
    }
    assert(x =~= y);
}

/// What stands before the last of a character, and what after it, is known from
/// the whole.
proof fn lemma_last_part(x: Seq<char>, a: Seq<char>, y: Seq<char>, b: Seq<char>, c: char)
    requires
        !a.contains(c),
        !b.contains(c),
        x + seq![c] + a == y + seq![c] + b,
    ensures
        x == y,
        a == b,
{
    let whole = x + seq![c] + a;
    let other = y + seq![c] + b;
    assert(whole.len() == x.len() + 1 + a.len());
    assert(other.len() == y.len() + 1 + b.len());
    if x.len() < y.len() {
        assert(other[y.len() as int] == c);
        assert(whole[y.len() as int] == a[y.len() - x.len() - 1]);
        assert(a.contains(c));
    } else if y.len() < x.len() {
        assert(whole[x.len() as int] == c);
        assert(other[x.len() as int] == b[x.len() - y.len() - 1]);
        assert(b.contains(c));
    }
    assert forall|i: int| 0 <= i < x.len() implies x[i] == y[i] by {
        assert(whole[i] == x[i]);
        assert(other[i] == y[i]);
    }
    assert(x =~= y);
    assert(a.len() == b.len());
    assert forall|i: int| 0 <= i < a.len() implies a[i] == b[i] by {
        assert(whole[x.len() + 1 + i] == a[i]);
        assert(other[x.len() + 1 + i] == b[i]);
    }
    assert(a =~= b);
}

/// Names that are not empty and have no comma.
pub open spec fn plain_names(names: Seq<Seq<char>>) -> bool {
    forall|i: int|
        0 <= i < names.len() ==> (#[trigger] names[i]).len() > 0 && !names[i].contains(',')
}

/// Two or more names have a comma between them.
proof fn lemma_joined_comma(names: Seq<Seq<char>>)
    requires
        names.len() >= 2,
    ensures
        joined(names, seq![',']).contains(','),
{
    let before = joined(names.drop_last(), seq![',']);
    assert(joined(names, seq![','])[before.len() as int] == ',');
}

/// Names are known from the text in which they are joined.
proof fn lemma_joined_unique(a: Seq<Seq<char>>, b: Seq<Seq<char>>)
    requires
        plain_names(a),
        plain_names(b),
        joined(a, seq![',']) == joined(b, seq![',']),
    ensures
        a == b,
    decreases a.len(),
{
    if a.len() >= 2 {
        lemma_joined_comma(a);
    }
    if b.len() >= 2 {
        lemma_joined_comma(b);
    }
    if a.len() >= 2 && b.len() >= 2 {
        let x = a.drop_last();
        let y = b.drop_last();
        assert(a.last() == a[a.len() - 1]);
        assert(b.last() == b[b.len() - 1]);
        lemma_last_part(
            joined(x, seq![',']),
            a.last(),
            joined(y, seq![',']),
            b.last(),
            ',',
        );
        assert(plain_names(x)) by {
            assert forall|i: int| 0 <= i < x.len() implies (#[trigger] x[i]).len() > 0
                && !x[i].contains(',') by {
                assert(x[i] == a[i]);
            }
        }
        assert(plain_names(y)) by {
            assert forall|i: int| 0 <= i < y.len() implies (#[trigger] y[i]).len() > 0
                && !y[i].contains(',') by {
                assert(y[i] == b[i]);
            }
        }
        lemma_joined_unique(x, y);
        assert(a =~= x.push(a.last()));
        assert(b =~= y.push(b.last()));
    } else {
        if a.len() == 1 {
            assert(a[0].len() > 0);
        }
        if b.len() == 1 {
            assert(b[0].len() > 0);
        }
        assert(a =~= b);
    }
}

/// TLS settings whose names have no bars and whose protocols have no commas.
pub open spec fn plain_settings(tls: UpstreamTlsView) -> bool {
    &&& tls.sni matches Some(sni) ==> !sni.contains('|')
    &&& !provider_name(tls.certificate_provider).contains('|')
    &&& !provider_name(tls.validation_provider).contains('|')
    &&& plain_names(tls.alpn_protocols)
}

/// Whether a client made for some TLS settings can be used for others: the
/// server name, both providers and the protocols are the same.
pub open spec fn same_client(a: UpstreamTlsView, b: UpstreamTlsView) -> bool {
    &&& server_name_of(a) == server_name_of(b)
    &&& provider_name(a.certificate_provider) == provider_name(b.certificate_provider)
    &&& provider_name(a.validation_provider) == provider_name(b.validation_provider)
    &&& a.alpn_protocols == b.alpn_protocols
}

/// The server name in a key.
spec fn key_name(tls: UpstreamTlsView) -> Seq<char> {
    match tls.sni {
        Some(sni) => sni,
        None => Seq::<char>::empty(),
    }
}

/// The parts of a key after the server name, the second and the third bar.
spec fn key_rest(tls: UpstreamTlsView) -> Seq<char> {
    provider_name(tls.certificate_provider) + seq!['|'] + key_end(tls)
}

spec fn key_end(tls: UpstreamTlsView) -> Seq<char> {
    provider_name(tls.validation_provider) + seq!['|'] + joined(tls.alpn_protocols, seq![','])
}

proof fn lemma_grouped(
    a: Seq<char>,
    b: Seq<char>,
    c: Seq<char>,
    d: Seq<char>,
    bar: Seq<char>,
)
    ensures
        a + bar + b + bar + c + bar + d == a + bar + (b + bar + (c + bar + d)),
{
    assert(a + bar + b + bar + c + bar + d =~= a + bar + (b + bar + (c + bar + d)));
}

proof fn lemma_key_parts(tls: UpstreamTlsView)
    ensures
        cache_key(tls) == key_name(tls) + seq!['|'] + key_rest(tls),
{
    assert("|"@ == seq!['|']) by {
        reveal_strlit("|");
        assert("|"@ =~= seq!['|']);
    }
    assert(","@ == seq![',']) by {
        reveal_strlit(",");
        assert(","@ =~= seq![',']);
    }
    lemma_grouped(
        key_name(tls),
        provider_name(tls.certificate_provider),
        provider_name(tls.validation_provider),
        joined(tls.alpn_protocols, seq![',']),
        seq!['|'],
    );
}

/// Two TLS settings share a client exactly where they agree on the server name,
/// on both providers and on the protocols, as long as no bar or comma in a name
/// blurs the key.
pub proof fn law_clients_are_shared_by_settings(a: UpstreamTlsView, b: UpstreamTlsView)
    requires
        plain_settings(a),
        plain_settings(b),
    ensures
        cache_key(a) == cache_key(b) <==> same_client(a, b),
{
    lemma_key_parts(a);
    lemma_key_parts(b);
    assert(key_name(a) == key_name(b) <==> server_name_of(a) == server_name_of(b)) by {
        assert(key_name(a).len() == 0 ==> key_name(a) =~= Seq::<char>::empty());
        assert(key_name(b).len() == 0 ==> key_name(b) =~= Seq::<char>::empty());
    }
    if cache_key(a) == cache_key(b) {
        lemma_first_part(key_name(a), key_rest(a), key_name(b), key_rest(b), '|');
        lemma_first_part(
            provider_name(a.certificate_provider),
            key_end(a),
            provider_name(b.certificate_provider),
            key_end(b),
            '|',
        );
        lemma_first_part(
            provider_name(a.validation_provider),
            joined(a.alpn_protocols, seq![',']),
            provider_name(b.validation_provider),
            joined(b.alpn_protocols, seq![',']),
            '|',
        );
        lemma_joined_unique(a.alpn_protocols, b.alpn_protocols);
    }
}

/// A request to a cluster with TLS settings is never sent on without TLS, and
/// one to a cluster without them always is.
pub proof fn law_tls_is_never_dropped<C>(
    support: MtlsSupport<C>,
    cluster: Seq<char>,
    tls: Option<UpstreamTlsView>,
)
    ensures
        support.dispatched(cluster, tls) == Ok::<DispatchView<C>, FailureView>(
            DispatchView::Plain,
        ) <==> tls is None,
{
}

/// Without a bootstrap that could be loaded, a request to a cluster with TLS
/// settings is answered with a bad gateway.
pub proof fn law_tls_without_bootstrap_is_bad_gateway<C>(
    support: MtlsSupport<C>,
    cluster: Seq<char>,
    tls: UpstreamTlsView,
)
    requires
        !(support is Available),
    ensures
        support.dispatched(cluster, Some(tls)) == Err::<DispatchView<C>, FailureView>(
            failure(
                BAD_GATEWAY,
                match support {
                    MtlsSupport::Error(text) => loading_failed(cluster, text@),
                    _ => not_configured(cluster),
                },
            ),
        ),
{
}

/// A client that was kept is the one that such settings get from then on, and
/// other settings get what they got before.
pub proof fn law_kept_client_is_reused<C>(
    before: MtlsClientPool<C>,
    after: MtlsClientPool<C>,
    kept: UpstreamTlsView,
    client: C,
    cluster: Seq<char>,
    tls: UpstreamTlsView,
)
    requires
        after.providers() == before.providers(),
        after.clients() == before.clients().insert(cache_key(kept), client),
    ensures
        MtlsSupport::Available(after).dispatched(cluster, Some(tls)) == if cache_key(tls)
            == cache_key(kept) {
            Ok::<DispatchView<C>, FailureView>(DispatchView::Reuse(client))
        } else {
            MtlsSupport::Available(before).dispatched(cluster, Some(tls))
        },
{
}

/// Settings that do not name a provider mean the default one.
pub proof fn law_missing_provider_is_default<C>(pool: MtlsClientPool<C>, tls: UpstreamTlsView)
    ensures
        files_for(pool.providers(), tls) == files_for(
            pool.providers(),
            (UpstreamTlsView {
                certificate_provider: Some(provider_name(tls.certificate_provider)),
                validation_provider: Some(provider_name(tls.validation_provider)),
                ..tls
            }),
        ),
        cache_key(tls) == cache_key(
            (UpstreamTlsView {
                certificate_provider: Some(provider_name(tls.certificate_provider)),
                validation_provider: Some(provider_name(tls.validation_provider)),
                ..tls
            }),
        ),
{
}

} // verus!
