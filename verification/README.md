# metrics_exporter_prometheus

The core of a Prometheus metrics exporter, written in Verus: metric handles,
histogram storage, native-histogram bucket layout, and rendering of a metrics
snapshot into the Prometheus protobuf exposition format (a stream of
length-delimited `io.prometheus.client.MetricFamily` messages).

## Layout

- `src/wire.rs`: Protocol Buffers wire-format specs (varints, keys, zig-zag,
  field framing) and the field writers, each a thin call into `prost`'s
  encoding routines with the exact bytes stated in its contract.
- `src/pb.rs`: the exposition messages, their abstract views, their encoders,
  and the splitting of a length-delimited stream back into messages.
- `src/buckets.rs`: native-histogram spans and deltas from a bucket map, with
  the proof that the layout decodes back to the map.
- `src/float_bits.rs`: the IEEE-754 bit pattern of the double nearest to a
  counter value, computed on integers.
- `src/formatting.rs`: metric-name sanitizing and suffix rules.
- `src/protobuf.rs`: conversion of counters, gauges, summaries and histograms
  into messages, and `render_protobuf`.
- `src/registry.rs`: the histogram handle that collects observations until its
  first accepted cumulative snapshot, then only replaces the aggregate.
- `src/handles.rs`: the counter handle and its handler trait.
- `app/`: what stays outside verification: writing to an I/O sink, reading
  floating-point aggregates into the library's integer model, a mutex-shared
  histogram handle, and the float-valued gauge and histogram handles.

## Model

Floating-point values (gauge values, sums, bucket bounds, quantiles) are held
as their IEEE-754 bit patterns and written to the wire unchanged. Collections
that are walked in an unspecified order are given as sequences, which are
rendered in the order given.
