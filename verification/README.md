# clickhouse_spans

Turns OTLP trace documents into rows for a ClickHouse table of spans, and picks
such rows out of the log records of a Lambda function.

- `row` turns an OTLP document into newline-delimited JSON, one object for each
  span (`transform_otlp_to_clickhouse`); `otlp` reads the spans, `attributes` their
  attributes, `timestamp` formats times, `span` holds the types of the table.
- `span_filter` finds the spans in a log record (`select_spans`); `delivery` says
  which of them is put into the stream next.
- `reply` makes the answer of the greeting function.
- `json` is the type of JSON values and its model; `codec` is the way to and from
  `serde_json`; `text` and `text_map` are texts and maps with text keys.

Every function states what it returns in its contract. What is taken on trust are
the calls into `serde_json`, `serde`, `chrono` and a few methods of `str`, each in a
small function marked `external_body` whose comment says what is claimed.

The proof functions without `lemma_` in their names are properties of the library
as a whole: that a document has one row for each of its spans, that the rows which
are written are the spans which are found again, that no two timestamps are
written alike, and more.

`app/` holds the programs: the function (the default), the extension that sends
spans to Kinesis (`extension`), and a demonstration (`demo`).
