# propfi

Verified state machines of PropFi, a real-estate tokenization protocol made
of eight Soroban contracts: a property registry, a KYC compliance registry,
a price oracle, a fraction vault, a rent distributor, a mortgage pool,
governance and a cross-border payment bridge.

## Layout

- `src/` is the library, verified with Verus. Each contract is a plain
  struct holding its storage (`table::Table`, an association list seen as a
  `Map`) with one method per contract entry point. A method takes the
  invocation context (`types::Env`: ledger time, the contract's address,
  who authorized the call), decides, and returns either the contract's
  error or its result together with what the host must carry out: token
  transfers (`types::Transfer`) and, for the fraction vault, the rent
  distributor's checkpoint. What a contract learns from another contract
  (a property record, a compliance verdict, a fraction balance, an oracle
  price) is an argument. Every method states in `ensures` exactly which
  error it returns on which input and how the state changes; the
  `law_*` proof functions state the properties that hold across calls.
- `app/` holds the Soroban contracts themselves: they load the library's
  state from instance storage, make the cross-contract calls, call the
  library, perform the transfers, publish the events and store the state.
- `tests/` exercises the library on concrete scenarios.
