# oc_protocol

Documents that clients, servers and witnesses exchange outside the `.cc` container: requests
for access and decisions on them, grants for agents and for actions, leases, control orders,
the directory of keys. The library fixes their byte layouts, the rules a document has to
meet, and the decisions taken on them, and proves in Verus that the code does what its
contracts say.

- `src/` is the verified library. It does no I/O and no cryptography. It says which signature
  is to be checked, under which key and over what (`transcript`), and takes the answer as a
  plain value.
- `tests/` run the library on concrete documents.
- `app/` puts a host with cryptography and a codec of policies around the library.

| module | documents |
|---|---|
| `access` | requests for a share, the queue of them, the author's decision |
| `action` | grants of actions, requests, leases, decisions, narrowing of rules |
| `activation` | messages between a device and a server |
| `agent` | grants to agents, delegations, chains of them |
| `attestation` | evidence that a device's key is in hardware |
| `attribute_rule` | rules by attribute |
| `control` | bindings of a server, orders, receipts, transfers of authority |
| `directory` | records of keys, and what a server proves about them |
| `lease` | leases of files |
| `tlv`, `bytes`, `text`, `paths`, `unknown`, `transcript` | what the documents are made of |

Every document has a spec function that gives its bytes, one that reads them, and a law that
the second undoes the first.
