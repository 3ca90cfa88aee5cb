# dnsqb_service

The core of a local DNS-over-HTTPS service that asks several filtering
resolvers and answers by what they agree on. The library holds everything that
the service decides: which requests it answers and how it reads them, the
override lists, the country filter and the refresh of its database, the
personal zone, the query log, what is kept on disk and in which form, and every
change that the administration interface makes.

The library does no input or output. A function takes what was read and gives
what is to be written, sent or done next; where work and decisions alternate,
each step says what to do and is handed what came of it. Every function states
its result, and Verus proves it. The result is stated exactly but where chance or
the machine decides: the bytes of a freshly drawn key, the nonce of a sealed
file, and whether a country database opens that not every machine can open.

## Layout

- `src/` is the library.
  - `routes`, `http`, `dispatch`, `base64url`, `wire`: requests and how they are
    read.
  - `app_state`, `admin`, `config`, `upstream`: the running state, the
    administration interface, settings and voters.
  - `overrides`: the user's own lists.
  - `geoip`, `geoip_download`, `geoip_updater`, `geoip_credentials`: the country
    filter, its database and the credentials for it.
  - `personal_zone_stats`, `personal_zone_persist`: the personal zone.
  - `query_log`, `persist_dto`, `log_persist`: the query log and its file.
  - `encrypted_file`, `digest`, `key_store`, `paths`, `local_state`: encrypted
    files, keys and where they belong.
  - `lifecycle`, `pause_watch`, `listener`, `logging`, `install_region`: the
    rest of the service's surroundings.
  - `text`: the vocabulary on texts that the contracts are written in.
- `tests/` runs the library, with the outside crates behind it.
- `app/` is the program round the library: sockets, files, the credential store
  and timers. It listens with plain HTTP on the loopback address and hands every
  query to one resolver.

The functions that call outside crates are the ones marked
`#[verifier::external_body]`, together with the `assume_specification` items;
each says in its comment what is taken from the crate without proof. The public
proof functions whose names begin with `law_` state what holds across functions.
