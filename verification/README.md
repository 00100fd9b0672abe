# rustacme

An ACME DNS-01 certificate renewer for domains whose DNS is managed through the
West.cn DNS API. Certificates are stored under `/certs/<first-domain>/`.

The decisions are made by a library verified with Verus (`src/`):

- `domain`: zones and host prefixes for DNS-01 challenges, name validation;
- `cert`: certificate groups, their directories, the digested DNS API key;
- `dns`: the DNS API's requests, the verdict on its answers, and which TXT
  records a cleanup removes;
- `renewal`: whether a stored certificate is due for renewal;
- `csr`: the private key and certificate signing request for a group;
- `acme`: the steps of an ACME order (challenge records, polling);
- `config`: settings read from the environment;
- `text`: string helpers with their specifications.

`app/main.rs` is the daemon around it: environment, files, HTTP, ACME and the
timers.

Two collections are held as vectors. The form fields of a DNS API request are a
vector of name/value pairs, whose contents the contracts state exactly. The TXT
records created during an order are deduplicated in a vector, keeping first
occurrences: a hash set of records would rest on hashing and equality impls
that `derive` writes for a struct with `String` fields, which the verifier does
not read, so nothing could be stated about which records remain.
