//! What configurations and schema fingerprints promise.
use crate::chars::{
    digit_of, lemma_decimal, lemma_piece_alone, lemma_pieces_more, lemma_pieces_next, pieces,
};
use crate::common::config::{config_fault, with_overrides, Config, EnvOverrides};
use crate::common::schema::{
    canonical, is_sort_key_order, spans_v1_columns, ColumnType, ColumnView, IndexHint,
};
use crate::order::lists;
use crate::text::decimal;
use vstd::prelude::*;
use vstd::string::*;

verus! {

/// A variable of the environment replaces the setting that it is for, and only that one.
pub proof fn overrides_replace_their_settings(c: Config, env: EnvOverrides)
    ensures
        env.listen matches Some(v) ==> with_overrides(c, env).server.listen == v,
        env.listen is None ==> with_overrides(c, env).server.listen == c.server.listen,
        env.http_listen matches Some(v) ==> with_overrides(c, env).server.http_listen == v,
        env.http_listen is None ==> with_overrides(c, env).server.http_listen
            == c.server.http_listen,
        env.storage_backend matches Some(v) ==> with_overrides(c, env).storage.backend == v,
        env.storage_backend is None ==> with_overrides(c, env).storage.backend
            == c.storage.backend,
        env.fs_root matches Some(v) ==> with_overrides(c, env).storage.fs_root == v,
        env.fs_root is None ==> with_overrides(c, env).storage.fs_root == c.storage.fs_root,
        env.catalog_backend matches Some(v) ==> with_overrides(c, env).catalog.backend == v,
        env.catalog_backend is None ==> with_overrides(c, env).catalog.backend
            == c.catalog.backend,
        env.sqlite_path matches Some(v) ==> with_overrides(c, env).catalog.sqlite_path == v,
        env.sqlite_path is None ==> with_overrides(c, env).catalog.sqlite_path
            == c.catalog.sqlite_path,
        env.postgres_url is Some ==> with_overrides(c, env).catalog.postgres_url
            == env.postgres_url,
        env.postgres_url is None ==> with_overrides(c, env).catalog.postgres_url
            == c.catalog.postgres_url,
        env.log_level matches Some(v) ==> with_overrides(c, env).telemetry.log_level == v,
        env.log_level is None ==> with_overrides(c, env).telemetry.log_level
            == c.telemetry.log_level,
        with_overrides(c, env).server.tls == c.server.tls,
        with_overrides(c, env).storage.bucket == c.storage.bucket,
        with_overrides(c, env).storage.region == c.storage.region,
        with_overrides(c, env).storage.endpoint == c.storage.endpoint,
        with_overrides(c, env).storage.access_key == c.storage.access_key,
        with_overrides(c, env).storage.secret_key == c.storage.secret_key,
        with_overrides(c, env).storage.nvme_cache_dir == c.storage.nvme_cache_dir,
        with_overrides(c, env).storage.nvme_cache_bytes == c.storage.nvme_cache_bytes,
        with_overrides(c, env).telemetry.otlp_endpoint == c.telemetry.otlp_endpoint,
        with_overrides(c, env).ingest == c.ingest,
        with_overrides(c, env).compact == c.compact,
        with_overrides(c, env).query == c.query,
        with_overrides(c, env).fts == c.fts,
        with_overrides(c, env).bitmap_index == c.bitmap_index,
        with_overrides(c, env).jsonpath_index == c.jsonpath_index,
        with_overrides(c, env).vector == c.vector,
        with_overrides(c, env).auth == c.auth,
        with_overrides(c, env).crypto == c.crypto,
{
}

/// A configuration is accepted if and only if its backends are known ones, a Postgres catalog
/// has an address, and the flush size is not zero.
pub proof fn configurations_are_checked(c: Config)
    ensures
        config_fault(c) is None <==> {
            &&& c.storage.backend@ == "fs"@ || c.storage.backend@ == "s3"@ || c.storage.backend@
                == "gcs"@ || c.storage.backend@ == "azure"@ || c.storage.backend@ == "memory"@
            &&& c.catalog.backend@ == "sqlite"@ || (c.catalog.backend@ == "postgres"@
                && c.catalog.postgres_url is Some)
            &&& c.ingest.flush_max_bytes > 0
        },
{
    reveal_strlit("sqlite");
    reveal_strlit("postgres");
    assert("sqlite"@.len() == 6);
    assert("postgres"@.len() == 8);
}

/// No character of the text separates columns or their attributes.
pub open spec fn is_plain(s: Seq<char>) -> bool {
    forall|i: int| 0 <= i < s.len() ==> #[trigger] s[i] != '|' && s[i] != '\n'
}

/// The line of a column without its end.
spec fn line_body(c: ColumnView) -> Seq<char> {
    c.name + seq!['|'] + c.ty.text() + seq!['|'] + (if c.nullable { seq!['n'] } else { seq!['r'] })
        + seq!['|'] + c.index.text() + seq!['|'] + decimal(c.sort_priority as nat)
}

/// The length, or zero for a vector, and the first and last letter of a type's name, which
/// tell the types apart.
spec fn type_shape(t: ColumnType) -> (nat, char, char) {
    match t {
        ColumnType::Bool => (4, 'B', 'l'),
        ColumnType::Int32 => (5, 'I', '2'),
        ColumnType::Int64 => (5, 'I', '4'),
        ColumnType::UInt32 => (6, 'U', '2'),
        ColumnType::UInt64 => (6, 'U', '4'),
        ColumnType::Float32 => (7, 'F', '2'),
        ColumnType::Float64 => (7, 'F', '4'),
        ColumnType::Utf8 => (4, 'U', '8'),
        ColumnType::Binary => (6, 'B', 'y'),
        ColumnType::TraceId => (7, 'T', 'd'),
        ColumnType::SpanId => (6, 'S', 'd'),
        ColumnType::Json => (4, 'J', 'n'),
        ColumnType::FloatVector(n) => (13 + decimal(n as nat).len(), 'F', ')'),
        ColumnType::TimestampMillis => (15, 'T', 's'),
    }
}

proof fn lemma_type_text(t: ColumnType)
    ensures
        t.text().len() == type_shape(t).0,
        t.text().len() > 0,
        t.text()[0] == type_shape(t).1,
        t.text().last() == type_shape(t).2,
        is_plain(t.text()),
        t matches ColumnType::FloatVector(n) ==> t.text().subrange(12, t.text().len() - 1)
            == decimal(n as nat),
{
    reveal_strlit("Bool");
    reveal_strlit("Int32");
    reveal_strlit("Int64");
    reveal_strlit("UInt32");
    reveal_strlit("UInt64");
    reveal_strlit("Float32");
    reveal_strlit("Float64");
    reveal_strlit("Utf8");
    reveal_strlit("Binary");
    reveal_strlit("TraceId");
    reveal_strlit("SpanId");
    reveal_strlit("Json");
    reveal_strlit("FloatVector(");
    reveal_strlit(")");
    reveal_strlit("TimestampMillis");
    if let ColumnType::FloatVector(n) = t {
        let d = decimal(n as nat);
        lemma_decimal(n as nat);
        assert forall|i: int| 0 <= i < t.text().len() implies #[trigger] t.text()[i] != '|'
            && t.text()[i] != '\n' by {
            if 12 <= i < 12 + d.len() {
                assert(t.text()[i] == d[i - 12]);
                assert(digit_of(d[i - 12]) is Some);
            }
        }
        assert(t.text().subrange(12, t.text().len() - 1) =~= d);
    }
}

proof fn lemma_types_distinct(a: ColumnType, b: ColumnType)
    requires
        a.text() == b.text(),
    ensures
        a == b,
{
    lemma_type_text(a);
    lemma_type_text(b);
    if let ColumnType::FloatVector(m) = a {
        if let ColumnType::FloatVector(n) = b {
            lemma_decimal(m as nat);
            lemma_decimal(n as nat);
        }
    }
}

proof fn lemma_index_text(h: IndexHint)
    ensures
        is_plain(h.text()),
        h.text().len() == (match h {
            IndexHint::Plain => 4nat,
            IndexHint::Bitmap => 6,
            IndexHint::Fts => 3,
            IndexHint::JsonPath => 8,
            IndexHint::Hnsw => 4,
        }),
        h is Plain ==> h.text()[0] == 'N',
        h is Hnsw ==> h.text()[0] == 'H',
{
    reveal_strlit("None");
    reveal_strlit("Bitmap");
    reveal_strlit("Fts");
    reveal_strlit("JsonPath");
    reveal_strlit("Hnsw");
}

proof fn lemma_priority_text(n: nat)
    ensures
        is_plain(decimal(n)),
{
    lemma_decimal(n);
    assert forall|i: int| 0 <= i < decimal(n).len() implies #[trigger] decimal(n)[i] != '|'
        && decimal(n)[i] != '\n' by {
        assert(digit_of(decimal(n)[i]) is Some);
    }
}

proof fn lemma_line(c: ColumnView)
    requires
        is_plain(c.name),
    ensures
        c.line() == line_body(c) + seq!['\n'],
        pieces(line_body(c), '|') == seq![
            c.name,
            c.ty.text(),
            if c.nullable {
                seq!['n']
            } else {
                seq!['r']
            },
            c.index.text(),
            decimal(c.sort_priority as nat),
        ],
        forall|i: int| 0 <= i < line_body(c).len() ==> #[trigger] line_body(c)[i] != '\n',
{
    reveal_strlit("|");
    reveal_strlit("n");
    reveal_strlit("r");
    reveal_strlit("\n");
    lemma_type_text(c.ty);
    lemma_index_text(c.index);
    lemma_priority_text(c.sort_priority as nat);
    let nr = if c.nullable {
        seq!['n']
    } else {
        seq!['r']
    };
    let p = decimal(c.sort_priority as nat);
    let l1 = c.name;
    let l2 = l1 + seq!['|'] + c.ty.text();
    let l3 = l2 + seq!['|'] + nr;
    let l4 = l3 + seq!['|'] + c.index.text();
    let l5 = l4 + seq!['|'] + p;
    assert(line_body(c) =~= l5);
    lemma_piece_alone(l1, '|');
    lemma_pieces_next(l1, c.ty.text(), '|');
    lemma_pieces_next(l2, nr, '|');
    lemma_pieces_next(l3, c.index.text(), '|');
    lemma_pieces_next(l4, p, '|');
    assert(pieces(l5, '|') =~= seq![c.name, c.ty.text(), nr, c.index.text(), p]);
    assert(c.line() =~= l5 + seq!['\n']);
    assert(is_line(l1));
    lemma_line_grows(l1, c.ty.text());
    lemma_line_grows(l2, nr);
    lemma_line_grows(l3, c.index.text());
    lemma_line_grows(l4, p);
}

/// The text has no end of a line in it.
spec fn is_line(s: Seq<char>) -> bool {
    forall|i: int| 0 <= i < s.len() ==> #[trigger] s[i] != '\n'
}

proof fn lemma_line_grows(a: Seq<char>, b: Seq<char>)
    requires
        is_line(a),
        is_plain(b),
    ensures
        is_line(a + seq!['|'] + b),
{
    let s = a + seq!['|'] + b;
    assert forall|i: int| 0 <= i < s.len() implies #[trigger] s[i] != '\n' by {
        if i < a.len() {
            assert(s[i] == a[i]);
        } else if i > a.len() {
            assert(s[i] == b[i - a.len() - 1]);
        }
    }
}

proof fn lemma_canonical_lines(columns: Seq<ColumnView>)
    requires
        forall|i: int| 0 <= i < columns.len() ==> is_plain((#[trigger] columns[i]).name),
    ensures
        pieces(canonical(columns), '\n') == Seq::new(
            columns.len(),
            |i: int| line_body(columns[i]),
        ).push(Seq::empty()),
    decreases columns.len(),
{
    let lines = Seq::new(columns.len(), |i: int| line_body(columns[i]));
    if columns.len() == 0 {
        assert(lines.push(Seq::empty()) =~= seq![Seq::<char>::empty()]);
    } else {
        let head = columns.drop_last();
        let c = columns.last();
        assert(is_plain(columns[columns.len() - 1].name));
        assert forall|i: int| 0 <= i < head.len() implies is_plain((#[trigger] head[i]).name) by {
            assert(head[i] == columns[i]);
        }
        lemma_canonical_lines(head);
        lemma_line(c);
        let a = canonical(head);
        let b = line_body(c);
        let before = Seq::new(head.len(), |i: int| line_body(head[i]));
        lemma_pieces_more(a, b, '\n');
        assert(Seq::<char>::empty() + b =~= b);
        assert(pieces(a + b, '\n') =~= before.push(b));
        let all = a + b + seq!['\n'];
        assert(canonical(columns) =~= all);
        assert(all.drop_last() =~= a + b);
        assert(all.last() == '\n');
        assert(before.push(b).push(Seq::empty()) =~= lines.push(Seq::empty()));
    }
}

/// The text behind a schema's fingerprint gives every attribute of every column away: two
/// schemas with the same text have the same columns, in the same order, with the same names,
/// types, nullability, indexes and sort priorities.
pub proof fn fingerprints_cover_every_attribute(a: Seq<ColumnView>, b: Seq<ColumnView>)
    requires
        canonical(a) == canonical(b),
        forall|i: int| 0 <= i < a.len() ==> is_plain((#[trigger] a[i]).name),
        forall|i: int| 0 <= i < b.len() ==> is_plain((#[trigger] b[i]).name),
    ensures
        a == b,
{
    lemma_canonical_lines(a);
    lemma_canonical_lines(b);
    let x = Seq::new(a.len(), |i: int| line_body(a[i])).push(Seq::empty());
    let y = Seq::new(b.len(), |i: int| line_body(b[i])).push(Seq::empty());
    assert(x.len() == y.len());
    assert forall|i: int| 0 <= i < a.len() implies a[i] == b[i] by {
        assert(x[i] == y[i]);
        lemma_line(a[i]);
        lemma_line(b[i]);
        let p = pieces(line_body(a[i]), '|');
        let q = pieces(line_body(b[i]), '|');
        assert(p == q);
        assert(p[0] == q[0] && p[1] == q[1] && p[2] == q[2] && p[3] == q[3] && p[4] == q[4]);
        lemma_types_distinct(a[i].ty, b[i].ty);
        lemma_index_text(a[i].index);
        lemma_index_text(b[i].index);
        lemma_decimal(a[i].sort_priority as nat);
        lemma_decimal(b[i].sort_priority as nat);
        assert(p[2][0] == q[2][0]);
        assert(a[i].nullable == b[i].nullable);
        assert(a[i].index == b[i].index);
    }
    assert(a =~= b);
}

/// The sort key of the span schema is the trace, then the start time, then the span.
pub proof fn spans_sort_by_trace_time_and_span(r: Seq<usize>)
    requires
        is_sort_key_order(spans_v1_columns(), r),
    ensures
        r.len() == 3,
        spans_v1_columns()[r[0] as int].name == "trace_id"@,
        spans_v1_columns()[r[1] as int].name == "start_time_ms"@,
        spans_v1_columns()[r[2] as int].name == "span_id"@,
{
    let c = spans_v1_columns();
    assert(lists(r, 2));
    assert(lists(r, 5));
    assert(lists(r, 3));
    let x = choose|i: int| 0 <= i < r.len() && #[trigger] r[i] == 2;
    let y = choose|i: int| 0 <= i < r.len() && #[trigger] r[i] == 5;
    let z = choose|i: int| 0 <= i < r.len() && #[trigger] r[i] == 3;
    assert forall|i: int| 0 <= i < r.len() implies #[trigger] r[i] == 2 || r[i] == 5 || r[i] == 3 by {
        assert(c[r[i] as int].sort_priority > 0);
    }
    assert forall|i: int, j: int| 0 <= i < j < r.len() implies c[#[trigger] r[i] as int].sort_priority
        < c[#[trigger] r[j] as int].sort_priority by {
        assert(crate::common::schema::sort_key_before(c, r[i] as int, r[j] as int));
    }
    assert(x < y && y < z);
    if x > 0 {
        assert(c[r[0] as int].sort_priority < c[r[x] as int].sort_priority);
    }
    if y > 1 {
        assert(c[r[0] as int].sort_priority < c[r[1] as int].sort_priority);
        assert(c[r[1] as int].sort_priority < c[r[y] as int].sort_priority);
    }
    if z > 2 {
        assert(c[r[1] as int].sort_priority < c[r[2] as int].sort_priority);
        assert(c[r[2] as int].sort_priority < c[r[z] as int].sort_priority);
    }
    if r.len() > 3 {
        assert(c[r[2] as int].sort_priority < c[r[3] as int].sort_priority);
    }
}

proof fn lemma_schema_names()
    ensures
        forall|i: int, j: int|
            0 <= i < j < spans_v1_columns().len() ==> (#[trigger] spans_v1_columns()[i]).name != (
            #[trigger] spans_v1_columns()[j]).name,
{
    let c = spans_v1_columns();
    reveal_strlit("tenant_id");
    reveal_strlit("partition_id");
    reveal_strlit("trace_id");
    reveal_strlit("span_id");
    reveal_strlit("parent_span_id");
    reveal_strlit("start_time_ms");
    reveal_strlit("end_time_ms");
    reveal_strlit("duration_ms");
    reveal_strlit("span_type");
    reveal_strlit("status");
    reveal_strlit("provider");
    reveal_strlit("model");
    reveal_strlit("tool_name");
    reveal_strlit("prompt");
    reveal_strlit("completion");
    reveal_strlit("prompt_tokens");
    reveal_strlit("completion_tokens");
    reveal_strlit("cost_usd");
    reveal_strlit("temperature");
    reveal_strlit("top_p");
    reveal_strlit("tool_io_text");
    reveal_strlit("user_id");
    reveal_strlit("session_id");
    reveal_strlit("request_id");
    reveal_strlit("metadata");
    reveal_strlit("embedding");
    reveal_strlit("commit_id");
    assert forall|i: int, j: int| 0 <= i < j < c.len() implies (#[trigger] c[i]).name != (
    #[trigger] c[j]).name by {
        if c[i].name == c[j].name {
            assert(c[i].name.len() == c[j].name.len());
            assert(c[i].name[0] == c[j].name[0]);
            assert(c[i].name[1] == c[j].name[1]);
            assert(c[i].name[2] == c[j].name[2]);
            assert(c[i].name[3] == c[j].name[3]);
        }
    }
}

/// Each column of the span schema has a name of its own. Texts to search are indexed word by
/// word, texts with few values by a bitmap, metadata by its paths and embeddings as vectors.
pub proof fn columns_are_indexed_by_their_use(i: int)
    requires
        0 <= i < spans_v1_columns().len(),
    ensures
        ({
            let c = spans_v1_columns()[i];
            &&& c.index == IndexHint::Fts <==> c.name == "prompt"@ || c.name == "completion"@
                || c.name == "tool_io_text"@
            &&& c.index == IndexHint::Bitmap <==> c.name == "span_type"@ || c.name == "status"@
                || c.name == "provider"@ || c.name == "model"@ || c.name == "tool_name"@
            &&& c.index == IndexHint::JsonPath <==> c.name == "metadata"@
            &&& c.index == IndexHint::Hnsw <==> c.name == "embedding"@
        }),
        forall|j: int|
            0 <= j < spans_v1_columns().len() && j != i ==> (#[trigger] spans_v1_columns()[j]).name
                != spans_v1_columns()[i].name,
{
    lemma_schema_names();
    lemma_schema_places();
}

proof fn lemma_schema_places()
    ensures
        ({
            let c = spans_v1_columns();
            &&& c.len() == 27
            &&& c[0].name == "tenant_id"@ && c[1].name == "partition_id"@
            &&& c[2].name == "trace_id"@ && c[3].name == "span_id"@
            &&& c[4].name == "parent_span_id"@ && c[5].name == "start_time_ms"@
            &&& c[6].name == "end_time_ms"@ && c[7].name == "duration_ms"@
            &&& c[8].name == "span_type"@ && c[9].name == "status"@
            &&& c[10].name == "provider"@ && c[11].name == "model"@
            &&& c[12].name == "tool_name"@ && c[13].name == "prompt"@
            &&& c[14].name == "completion"@ && c[15].name == "prompt_tokens"@
            &&& c[16].name == "completion_tokens"@ && c[17].name == "cost_usd"@
            &&& c[18].name == "temperature"@ && c[19].name == "top_p"@
            &&& c[20].name == "tool_io_text"@ && c[21].name == "user_id"@
            &&& c[22].name == "session_id"@ && c[23].name == "request_id"@
            &&& c[24].name == "metadata"@ && c[25].name == "embedding"@
            &&& c[26].name == "commit_id"@
        }),
{
}

/// A span always has its tenant, its identifiers, its times and its commit; anything else may
/// be missing.
pub proof fn spans_need_identity_times_and_commit(i: int)
    requires
        0 <= i < spans_v1_columns().len(),
    ensures
        ({
            let c = spans_v1_columns()[i];
            !c.nullable <==> c.name == "tenant_id"@ || c.name == "partition_id"@ || c.name
                == "trace_id"@ || c.name == "span_id"@ || c.name == "start_time_ms"@ || c.name
                == "end_time_ms"@ || c.name == "duration_ms"@ || c.name == "commit_id"@
        }),
{
    lemma_schema_names();
    lemma_schema_places();
}

/// The type of a column is that of what it holds.
pub proof fn columns_have_the_types_of_their_values(i: int)
    requires
        0 <= i < spans_v1_columns().len(),
    ensures
        ({
            let c = spans_v1_columns()[i];
            match c.ty {
                ColumnType::UInt64 => c.name == "tenant_id"@ || c.name == "commit_id"@,
                ColumnType::UInt32 => c.name == "partition_id"@ || c.name == "prompt_tokens"@
                    || c.name == "completion_tokens"@,
                ColumnType::TraceId => c.name == "trace_id"@,
                ColumnType::SpanId => c.name == "span_id"@ || c.name == "parent_span_id"@,
                ColumnType::TimestampMillis => c.name == "start_time_ms"@ || c.name
                    == "end_time_ms"@,
                ColumnType::Int64 => c.name == "duration_ms"@,
                ColumnType::Float64 => c.name == "cost_usd"@ || c.name == "temperature"@ || c.name
                    == "top_p"@,
                ColumnType::Json => c.name == "metadata"@,
                ColumnType::FloatVector(n) => c.name == "embedding"@ && n == 1536,
                ColumnType::Utf8 => c.index == IndexHint::Fts || c.index == IndexHint::Bitmap
                    || c.name == "user_id"@ || c.name == "session_id"@ || c.name == "request_id"@,
                _ => false,
            }
        }),
{
    lemma_schema_places();
}

} // verus!
