# Field-Level Entitlement Filter

A gateway policy that projects the fields of a response for the caller. Which fields of a data
product are sensitive comes from the CDGC catalog; whether a caller may see them is decided from
the caller's clearance and declared purpose. What the caller may not see is masked, nulled or
dropped before the response goes out, and an `_entitlement` annotation in the payload says so.

The logic is a Verus library: its behaviour is stated in contracts and proved.

```
src/entitlement.rs  who is entitled, what is withheld, and the projection of one record
src/records.rs      where the records stand in a payload, and the projection of all of them
src/response.rs     framing (JSON, one-message event streams) and the rewriting of a response
src/request.rs      who calls, for which asset, and which responses are filtered
src/claims.rs       claims of the caller's bearer token (decoded, not verified)
src/config.rs       the configuration and its defaults
src/catalog.rs      the catalog's queries, and the field map that its answers make
src/refresh.rs      one refresh of a field map, call by call
src/cache.rs        freshness, the refresh lock, and how a map is stored
src/cdgc.rs         the cached field map, and the clock
src/json.rs         JSON values; src/wire.rs: the way to and from `serde_json`
src/names.rs        ordered sets of names; src/text.rs: strings as sequences of characters
src/laws.rs         what holds of the policy as a whole
app/                the policy on the gateway: headers, HTTP calls and stores
```

A token is only decoded here: put a policy that validates it in front.
