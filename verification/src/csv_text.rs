//! Records as lines of CSV: how a record is written, and what a text holds.
use crate::digest::{collide, sha256_digest};
use vstd::prelude::*;
use vstd::utf8::{decode_utf8, encode_utf8, encode_utf8_decode_utf8};

verus! {

/// The texts of the fields of one record.
pub open spec fn fields_view(fields: Seq<String>) -> Seq<Seq<char>> {
    fields.map_values(|f: String| f@)
}

/// The characters for which a field is put in quotes: the delimiter, the quote
/// and those that end a record.
pub open spec fn is_special(c: char) -> bool {
    c == ',' || c == '"' || c == '\r' || c == '\n'
}

/// Some character of the field calls for quotes.
pub open spec fn needs_quotes(field: Seq<char>) -> bool {
    exists|i: int| 0 <= i < field.len() && is_special(#[trigger] field[i])
}

/// `field` with every quote written twice.
pub open spec fn doubled_quotes(field: Seq<char>) -> Seq<char>
    decreases field.len(),
{
    if field.len() == 0 {
        seq![]
    } else if field[0] == '"' {
        seq!['"', '"'] + doubled_quotes(field.drop_first())
    } else {
        seq![field[0]] + doubled_quotes(field.drop_first())
    }
}

/// A field as it stands in a line.
pub open spec fn field_text(field: Seq<char>) -> Seq<char> {
    if needs_quotes(field) {
        seq!['"'] + doubled_quotes(field) + seq!['"']
    } else {
        field
    }
}

/// The fields of a record with commas between them.
pub open spec fn fields_text(fields: Seq<Seq<char>>) -> Seq<char>
    decreases fields.len(),
{
    if fields.len() == 0 {
        seq![]
    } else if fields.len() == 1 {
        field_text(fields[0])
    } else {
        field_text(fields[0]) + seq![','] + fields_text(fields.drop_first())
    }
}

/// The canonical line of a record, with the newline that ends it. A line that
/// would be blank is written as a pair of quotes.
pub open spec fn line_text(fields: Seq<Seq<char>>) -> Seq<char> {
    (if fields_text(fields).len() == 0 {
        seq!['"', '"']
    } else {
        fields_text(fields)
    }) + seq!['\n']
}

/// The lines of all records.
pub open spec fn csv_text(rows: Seq<Seq<Seq<char>>>) -> Seq<char>
    decreases rows.len(),
{
    if rows.len() == 0 {
        seq![]
    } else {
        csv_text(rows.drop_last()) + line_text(rows.last())
    }
}

/// A tail of a line after a field: what follows starts with a comma or ends the
/// line.
spec fn is_tail(t: Seq<char>) -> bool {
    t.len() > 0 && (t[0] == ',' || t[0] == '\n')
}

proof fn lemma_quoted_unique(f: Seq<char>, t: Seq<char>, g: Seq<char>, u: Seq<char>)
    requires
        is_tail(t),
        is_tail(u),
        doubled_quotes(f) + seq!['"'] + t == doubled_quotes(g) + seq!['"'] + u,
    ensures
        f == g,
        t == u,
    decreases f.len(),
{
    let x = doubled_quotes(f) + seq!['"'] + t;
    let y = doubled_quotes(g) + seq!['"'] + u;
    if f.len() == 0 {
        assert(x[0] == '"' && x[1] == t[0]);
        if g.len() > 0 {
            assert(y[0] == g[0]);
            assert(g[0] == '"' ==> y[1] == '"');
            assert(false);
        }
        assert(x.skip(1) =~= t);
        assert(y.skip(1) =~= u);
        assert(f =~= g);
    } else if g.len() == 0 {
        assert(y[0] == '"' && y[1] == u[0]);
        assert(x[0] == f[0]);
        assert(f[0] == '"' ==> x[1] == '"');
        assert(false);
    } else {
        let f1 = f.drop_first();
        let g1 = g.drop_first();
        assert(x[0] == f[0]);
        assert(y[0] == g[0]);
        if f[0] == '"' {
            assert(x.skip(2) =~= doubled_quotes(f1) + seq!['"'] + t);
            assert(y.skip(2) =~= doubled_quotes(g1) + seq!['"'] + u);
        } else {
            assert(x.skip(1) =~= doubled_quotes(f1) + seq!['"'] + t);
            assert(y.skip(1) =~= doubled_quotes(g1) + seq!['"'] + u);
        }
        lemma_quoted_unique(f1, t, g1, u);
        assert(f =~= seq![f[0]] + f1);
        assert(g =~= seq![g[0]] + g1);
    }
}

proof fn lemma_plain_no_longer(f: Seq<char>, t: Seq<char>, g: Seq<char>, u: Seq<char>)
    requires
        is_tail(t),
        !needs_quotes(g),
        f + t == g + u,
    ensures
        g.len() <= f.len(),
{
    if f.len() < g.len() {
        let k = f.len() as int;
        assert((f + t)[k] == t[0]);
        assert((g + u)[k] == g[k]);
        assert(is_special(g[k]));
    }
}

proof fn lemma_field_unique(f: Seq<char>, t: Seq<char>, g: Seq<char>, u: Seq<char>)
    requires
        is_tail(t),
        is_tail(u),
        field_text(f) + t == field_text(g) + u,
    ensures
        f == g,
        t == u,
{
    let x = field_text(f) + t;
    let y = field_text(g) + u;
    if needs_quotes(f) && needs_quotes(g) {
        assert(x.skip(1) =~= doubled_quotes(f) + seq!['"'] + t);
        assert(y.skip(1) =~= doubled_quotes(g) + seq!['"'] + u);
        lemma_quoted_unique(f, t, g, u);
    } else if needs_quotes(f) {
        assert(x[0] == '"');
        if g.len() > 0 {
            assert(y[0] == g[0]);
            assert(is_special(g[0]));
        } else {
            assert(y[0] == u[0]);
        }
        assert(false);
    } else if needs_quotes(g) {
        assert(y[0] == '"');
        if f.len() > 0 {
            assert(x[0] == f[0]);
            assert(is_special(f[0]));
        } else {
            assert(x[0] == t[0]);
        }
        assert(false);
    } else {
        lemma_plain_no_longer(f, t, g, u);
        lemma_plain_no_longer(g, u, f, t);
        assert(x.take(f.len() as int) =~= f);
        assert(y.take(g.len() as int) =~= g);
        assert(x.skip(f.len() as int) =~= t);
        assert(y.skip(g.len() as int) =~= u);
    }
}

/// What follows the first field of a line.
spec fn line_tail(fields: Seq<Seq<char>>) -> Seq<char> {
    if fields.len() == 1 {
        seq!['\n']
    } else {
        seq![','] + (fields_text(fields.drop_first()) + seq!['\n'])
    }
}

proof fn lemma_line_split(fields: Seq<Seq<char>>)
    requires
        fields.len() >= 1,
    ensures
        fields_text(fields) + seq!['\n'] == field_text(fields[0]) + line_tail(fields),
        is_tail(line_tail(fields)),
{
    assert(fields_text(fields) + seq!['\n'] =~= field_text(fields[0]) + line_tail(fields));
}

proof fn lemma_fields_unique(a: Seq<Seq<char>>, b: Seq<Seq<char>>)
    requires
        a.len() >= 1,
        b.len() >= 1,
        fields_text(a) + seq!['\n'] == fields_text(b) + seq!['\n'],
    ensures
        a == b,
    decreases a.len(),
{
    lemma_line_split(a);
    lemma_line_split(b);
    lemma_field_unique(a[0], line_tail(a), b[0], line_tail(b));
    if a.len() > 1 && b.len() > 1 {
        let ra = fields_text(a.drop_first()) + seq!['\n'];
        let rb = fields_text(b.drop_first()) + seq!['\n'];
        assert(line_tail(a).skip(1) =~= ra);
        assert(line_tail(b).skip(1) =~= rb);
        lemma_fields_unique(a.drop_first(), b.drop_first());
        assert(a =~= seq![a[0]] + a.drop_first());
        assert(b =~= seq![b[0]] + b.drop_first());
    } else {
        assert(line_tail(a)[0] == line_tail(b)[0]);
        assert(a =~= b);
    }
}

/// Only a record of one empty field has a body without characters.
proof fn lemma_blank_body(fields: Seq<Seq<char>>)
    requires
        fields.len() >= 1,
        fields_text(fields).len() == 0,
    ensures
        fields == seq![Seq::<char>::empty()],
{
    assert(fields.len() == 1);
    assert(fields[0] =~= Seq::<char>::empty());
    assert(fields =~= seq![Seq::<char>::empty()]);
}

/// The line of a record with a body is not a bare pair of quotes.
proof fn lemma_not_bare_quotes(fields: Seq<Seq<char>>)
    requires
        fields.len() >= 1,
        fields_text(fields).len() > 0,
    ensures
        fields_text(fields) + seq!['\n'] != seq!['"', '"'] + seq!['\n'],
{
    lemma_line_split(fields);
    let x = field_text(fields[0]) + line_tail(fields);
    let bare = seq!['"', '"'] + seq!['\n'];
    if x == bare {
        assert(x[0] == '"' && x.len() == 3);
        let f = fields[0];
        if needs_quotes(f) {
            assert(doubled_quotes(f).len() >= 1);
        } else if f.len() > 0 {
            assert(is_special(f[0]));
        }
        assert(false);
    }
}

/// The canonical line determines the record: two records of at least one field
/// each with the same line are the same record.
pub proof fn law_line_determines_record(a: Seq<Seq<char>>, b: Seq<Seq<char>>)
    requires
        a.len() >= 1,
        b.len() >= 1,
        line_text(a) == line_text(b),
    ensures
        a == b,
{
    if fields_text(a).len() == 0 && fields_text(b).len() == 0 {
        lemma_blank_body(a);
        lemma_blank_body(b);
    } else if fields_text(a).len() == 0 {
        lemma_not_bare_quotes(b);
    } else if fields_text(b).len() == 0 {
        lemma_not_bare_quotes(a);
    } else {
        lemma_fields_unique(a, b);
    }
}

/// The canonical line of a record is never blank, and a newline ends it.
pub proof fn law_line_ends_in_a_newline(fields: Seq<Seq<char>>)
    ensures
        line_text(fields).len() >= 2,
        line_text(fields).last() == '\n',
{
}

/// The canonical line of a record in UTF-8.
pub open spec fn line_bytes(fields: Seq<Seq<char>>) -> Seq<u8> {
    encode_utf8(line_text(fields))
}

/// The digest of a record: SHA-256 of its canonical line.
pub open spec fn record_digest(fields: Seq<Seq<char>>) -> [u8; 32] {
    sha256_digest(line_bytes(fields))
}

/// The digest of a record of at least one field determines the record, unless
/// the two lines are a collision of SHA-256.
pub proof fn law_digest_determines_record(a: Seq<Seq<char>>, b: Seq<Seq<char>>)
    requires
        a.len() >= 1,
        b.len() >= 1,
        record_digest(a) == record_digest(b),
    ensures
        a == b || collide(line_bytes(a), line_bytes(b)),
{
    if line_bytes(a) == line_bytes(b) {
        encode_utf8_decode_utf8(line_text(a));
        encode_utf8_decode_utf8(line_text(b));
        assert(decode_utf8(line_bytes(a)) == decode_utf8(line_bytes(b)));
        law_line_determines_record(a, b);
    }
}

/// The text of each field is the field's own.
pub proof fn law_fields_are_the_texts(fields: Seq<String>)
    ensures
        fields_view(fields).len() == fields.len(),
        forall|i: int| 0 <= i < fields.len() ==> #[trigger] fields_view(fields)[i] == fields[i]@,
{
}

/// A field in quotes has each of its quotes twice, and its other characters once.
proof fn lemma_doubled_quotes(field: Seq<char>)
    ensures
        doubled_quotes(field) == field.flat_map(
            |c: char|
                if c == '"' {
                    seq!['"', '"']
                } else {
                    seq![c]
                },
        ),
    decreases field.len(),
{
    let f = |c: char|
        if c == '"' {
            seq!['"', '"']
        } else {
            seq![c]
        };
    if field.len() > 0 {
        lemma_doubled_quotes(field.drop_first());
        assert(field.map_values(f).drop_first() =~= field.drop_first().map_values(f));
    }
}

/// A field stands in a line as it is, or, where it holds a comma, a quote, a
/// carriage return or a newline, between quotes and with its own quotes written
/// twice.
pub proof fn law_fields_are_quoted_where_needed(field: Seq<char>)
    ensures
        field_text(field) == (if field.contains(',') || field.contains('"') || field.contains('\r')
            || field.contains('\n') {
            seq!['"'] + field.flat_map(
                |c: char|
                    if c == '"' {
                        seq!['"', '"']
                    } else {
                        seq![c]
                    },
            ) + seq!['"']
        } else {
            field
        }),
{
    lemma_doubled_quotes(field);
    if field.contains(',') {
        let i = choose|i: int| 0 <= i < field.len() && field[i] == ',';
        assert(is_special(field[i]));
    }
    if field.contains('"') {
        let i = choose|i: int| 0 <= i < field.len() && field[i] == '"';
        assert(is_special(field[i]));
    }
    if field.contains('\r') {
        let i = choose|i: int| 0 <= i < field.len() && field[i] == '\r';
        assert(is_special(field[i]));
    }
    if field.contains('\n') {
        let i = choose|i: int| 0 <= i < field.len() && field[i] == '\n';
        assert(is_special(field[i]));
    }
    if needs_quotes(field) {
        let i = choose|i: int| 0 <= i < field.len() && is_special(#[trigger] field[i]);
        assert(field.contains(field[i]));
    }
}

proof fn lemma_fields_text(fields: Seq<Seq<char>>)
    requires
        fields.len() >= 1,
    ensures
        fields_text(fields) == field_text(fields[0]) + Seq::new(
            (fields.len() - 1) as nat,
            |i: int| seq![','] + field_text(fields[i + 1]),
        ).flatten(),
    decreases fields.len(),
{
    let rest = Seq::new(
        (fields.len() - 1) as nat,
        |i: int| seq![','] + field_text(fields[i + 1]),
    );
    if fields.len() == 1 {
        assert(rest =~= seq![]);
        assert(fields_text(fields) =~= field_text(fields[0]) + rest.flatten());
    } else {
        let tail = fields.drop_first();
        lemma_fields_text(tail);
        let tail_rest = Seq::new(
            (tail.len() - 1) as nat,
            |i: int| seq![','] + field_text(tail[i + 1]),
        );
        assert(rest.drop_first() =~= tail_rest);
        assert(fields_text(fields) =~= field_text(fields[0]) + rest.flatten());
    }
}

/// A line has all fields of the record, in their order, with a comma before each
/// but the first, and a newline behind the last; or only a pair of quotes and the
/// newline, where the record has no field or a single empty one.
pub proof fn law_line_has_every_field(fields: Seq<Seq<char>>)
    ensures
        fields.len() == 0 || (fields.len() == 1 && fields[0].len() == 0) ==> line_text(fields)
            == seq!['"', '"', '\n'],
        fields.len() > 1 || (fields.len() == 1 && fields[0].len() > 0) ==> line_text(fields)
            == field_text(fields[0]) + Seq::new(
            (fields.len() - 1) as nat,
            |i: int| seq![','] + field_text(fields[i + 1]),
        ).flatten() + seq!['\n'],
{
    if fields.len() >= 1 {
        lemma_fields_text(fields);
    }
    if fields.len() == 0 || (fields.len() == 1 && fields[0].len() == 0) {
        assert(line_text(fields) =~= seq!['"', '"', '\n']);
    }
}

/// A text has the lines of all records, in their order.
pub proof fn law_text_has_every_line(rows: Seq<Seq<Seq<char>>>)
    ensures
        csv_text(rows) == Seq::new(rows.len(), |i: int| line_text(rows[i])).flatten(),
    decreases rows.len(),
{
    let lines = Seq::new(rows.len(), |i: int| line_text(rows[i]));
    if rows.len() > 0 {
        let front = rows.drop_last();
        law_text_has_every_line(front);
        let front_lines = Seq::new(front.len(), |i: int| line_text(front[i]));
        assert(lines =~= front_lines.push(line_text(rows.last())));
        front_lines.lemma_flatten_push(line_text(rows.last()));
    }
}

/// The line of a record is hashed, in UTF-8, and nothing else.
pub proof fn law_record_is_hashed_by_its_line(fields: Seq<Seq<char>>)
    ensures
        line_bytes(fields) == encode_utf8(line_text(fields)),
        record_digest(fields) == sha256_digest(encode_utf8(line_text(fields))),
{
}

} // verus!
