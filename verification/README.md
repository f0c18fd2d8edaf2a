# databend_query

The decisions of a query server, verified with Verus.

- `src/mysql/` answers queries over the MySQL protocol. `column` maps the fields of a result to
  columns, `cell` maps values to what is sent for them, and `response` is the state machine of an
  answer; `query_result_writer` begins an answer.
- `src/partition.rs` makes the partitions of Parquet files: one for each row group that a scan has
  to read. `row_selection` is the interface to `parquet`'s row selections, `parquet_meta` reads
  the metadata of a file, `schema` checks that files have the schema of their table, `file_metas`
  lists files and loads their metadata in batches, and `batches` spreads files over threads and
  puts together what the threads made.
- `src/fill_virtual_columns.rs` appends virtual columns to the blocks that pass through a pipeline.
- `app/` performs what the library decides: it holds the connection, the ports and the storage.

The functions named `law_*` state what holds of the library as a whole: that no selected row is
lost, that the number of threads does not change a scan, that every query is answered exactly once.

What is believed without proof stands in `row_selection`, `parquet_meta`, `schema` and
`file_metas`: the contracts of the calls into `parquet` and into the standard library.
