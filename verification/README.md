# negative_space_core

Intelligence as what an agent avoids: per-agent decision logs, population
statistics, the conservation of the 294:1 avoidance ratio, inference of
hidden options from gaps between avoidances, and maps of an agent's negative
space.

The library in `src/` is verified with Verus. Every quantity that the model
defines as a quotient of counts (avoidance ratios, coverage, density, gap
confidences, thresholds and tolerances) is an exact `Fraction` of integers,
and an avoidance ratio with avoidances but no choices is `Ratio::Infinite`.

- `ratio.rs`: fractions, ratios, and exact comparison with a tolerance.
- `avoidance_tracker.rs`: the decision log of one agent and its counts.
- `population.rs`, `batch_analyzer.rs`: totals over populations, synthetic
  populations, batch statistics.
- `conservation_law.rs`: ratios measured across population scales.
- `text.rs`, `labels.rs`: label order, byte lengths, string distance,
  numbered labels.
- `inference_engine.rs`, `negative_space.rs`: gaps between neighbouring
  avoided labels and their confidence.

`app/` holds what is floating point: the ratios as `f64`, the standard
deviation of ratios and the conservation verdict built on it, and the
feedback loop (an exponential moving average).
