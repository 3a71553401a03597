# dxgate

dxgate is a gateway proxy that takes its configuration from a control plane over
xDS (ADS). The library in `src/` decides everything that can be decided without
I/O, and is verified with Verus. `app/` is the plain Rust around it: the ADS
stream, the HTTP server, TLS connections and files.

## The library

| module | what it holds |
|---|---|
| `address`, `config`, `validate`, `routing` | socket addresses, the runtime configuration, its conflicts, and the route of a request |
| `state`, `forward`, `headers` | the configuration in use, the choice of an upstream, and the answer where there is none |
| `mtls`, `pem` | upstream connections with mutual TLS: providers, files, cached clients |
| `proto`, `convert`, `snapshots` | the xDS messages as far as they are read, and what is kept of them |
| `ads`, `client`, `identity` | the known resources, the subscriptions, and the exchange with the control plane |
| `names`, `text`, `same`, `error` | ordered names, text operations, comparison, errors |
| `picker_laws`, `config_laws`, `mtls_laws`, `ads_laws`, `exchange_laws`, `endpoint_laws` | what holds of the library as a whole, each as a proof |

Contracts speak of views: each type has a `deep_view` of sequences, maps and
integers, and each function says what it returns as a spec function of the views
of its arguments.

## What is trusted

The library calls outside crates behind small wrappers whose contracts are
believed: `tonic` for the check of an endpoint, `http` for headers and URIs,
`rustls` and `rustls-pemfile` for certificates and keys, and `Debug` of `str` for
quotations in messages. Each wrapper says above it what is claimed.

## Use

`app/` keeps `ProxyState` and `MtlsSupport` behind locks, decodes xDS messages
into `proto`, runs the loop of `client::Session`, and performs what `forward` and
`MtlsSupport::dispatch` decide.
