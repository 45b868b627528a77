# memory_core retrieval

Retrieval building blocks for an episodic memory: a query cache with LRU
eviction, time-to-live and domain invalidation; cascade tier selection,
tier accounting, fallback rules and ontology expansion; the evidence stage's
outcome and hit order; validation and alignment of typed semantic judgments;
evidence classification; reconstructive windows around hits; execution
signatures; scope hints for shard routing; gist sentence splitting and
keyword extraction; rerank gates; and the benchmark harness's statistics
and verdicts.

Layout:

- `src/` is the verified library (Verus). Each module states its behaviour
  in `requires`/`ensures` over spec functions and views, and the properties
  that span several calls stand as public proof functions named `law_*`.
- `tests/` runs the library on concrete values.
- `app/` holds what the verifier does not see: the BM25 and HDC tiers,
  floating-point scoring and fusion, clock and time ranges, serde records, provider calls and report
  formatting, built on the library's functions.
