# prosocial

A verified core for a small prosocial-behaviour model: why good people
sometimes fail to help, and how security unlocks empathy.

- `src/` (Verus): the integer and boolean side of the model.
  - `needs`: Maslow levels, need deficit, capacity divisor, the weighted
    needs distribution and the level draws.
  - `snapshot`: the one-moment profile (helping and truthfulness rules,
    the text bar, the population census).
  - `resilience`: the security/resilience/status profile's truthfulness rule.
  - `society`: a population's members, counters and exchange log, with the
    invariant that every counter agrees with the log, the report queries, the
    honesty rule and the cooperative-pair listing.
  - `chance`: the two calls into `rand` that the library makes.
- `app/`: the command-line reports (`snapshot`, `resilience`, `society`);
  the real-valued traits and formulas of the model live there.
- `tests/`: tests of the library's functions and laws on concrete values.
