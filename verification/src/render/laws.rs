//! What exports hold, cell by cell.

use crate::error::Failure;
use crate::float::{digits_end, is_decimal_number, is_float_text, mantissa_end, unsigned};
use crate::json::{held, json_of, json_pretty, table_of, Js};
use crate::links::Graph;
use crate::mutation::relocate::has_path;
use crate::mutation::updates::{is_bare_word, is_reserved};
use crate::path::{below, components, extension, file_name, is_absolute, stem};
use crate::record::laws::{law_list_is_shown, law_shown};
use crate::record::{field, law_entry_is_set, looked_up, shown, Rec, Val};
use crate::render::{
    cell_row, columns, column_mapping, column_mappings, column_value, csv_line, csv_lines,
    csv_table, format_of, free_export, lower_extension, path_refusal, records_export, sheet_rows,
    suffixed, text_row, text_rows, typed, value_export, yaml_lines, yaml_text, Export, Format,
};
use crate::schema::laws::law_integer_is_read_back;
use crate::schema::{field_names, names_with};
use crate::text::{decimal, integer_of, is_text_set, lemma_with_text, lowered, signed_decimal};
use vstd::prelude::*;

verus! {

// ── Cells ──────────────────────────────────────────────────────────────────

/// The rows of a sheet of notes, header first.
pub open spec fn sheet_of(
    rs: Seq<Rec>,
    fields: Seq<Seq<char>>,
    root: Seq<char>,
    g: Option<Graph>,
) -> Seq<Seq<Val>> {
    records_export(rs, fields, root, g, Format::Xlsx)->Ok_0->Sheet_0
}

/// A sheet has a row of the names of its columns and then one row per note. The cell of a
/// note in a column is the value that the note has there: a list or a mapping as the text that
/// it is shown as, null and what is missing as no text, and all else as it is.
pub proof fn law_sheet_cells(
    rs: Seq<Rec>,
    fields: Seq<Seq<char>>,
    root: Seq<char>,
    g: Option<Graph>,
    i: int,
    j: int,
)
    requires
        0 <= i < rs.len(),
        0 <= j < fields.len(),
    ensures
        records_export(rs, fields, root, g, Format::Xlsx) is Ok,
        records_export(rs, fields, root, g, Format::Xlsx)->Ok_0 is Sheet,
        sheet_of(rs, fields, root, g).len() == rs.len() + 1,
        sheet_of(rs, fields, root, g)[0].len() == fields.len(),
        sheet_of(rs, fields, root, g)[0][j] == Val::Text(fields[j]),
        sheet_of(rs, fields, root, g)[i + 1].len() == fields.len(),
        match looked_up(rs[i], fields[j], root, g) {
            None | Some(Val::Null) => sheet_of(rs, fields, root, g)[i + 1][j] == Val::Text(
                Seq::empty(),
            ),
            Some(Val::List(items)) => sheet_of(rs, fields, root, g)[i + 1][j] == Val::Text(
                shown(Val::List(items)),
            ),
            Some(Val::Mapping(m)) => sheet_of(rs, fields, root, g)[i + 1][j] == Val::Text(
                shown(Val::Mapping(m)),
            ),
            Some(v) => sheet_of(rs, fields, root, g)[i + 1][j] == v,
        },
{
    let rows = sheet_rows(rs, fields, root, g);
    assert(rows[i + 1] == cell_row(rs[i], fields, root, g));
}

/// The cell of a list is the texts of its items with a comma and a blank between each two: that
/// of one item is the item's text, one more item adds a comma, a blank and its text, and so
/// the cell is never empty where an item has a text or there are two items.
pub proof fn law_list_cells(
    rs: Seq<Rec>,
    fields: Seq<Seq<char>>,
    root: Seq<char>,
    g: Option<Graph>,
    i: int,
    j: int,
    items: Seq<Val>,
    k: int,
)
    requires
        0 <= i < rs.len(),
        0 <= j < fields.len(),
        looked_up(rs[i], fields[j], root, g) == Some(Val::List(items)),
        0 <= k < items.len(),
    ensures
        ({
            let cell = sheet_of(rs, fields, root, g)[i + 1][j];
            &&& cell is Text
            &&& items.len() == 1 ==> cell == Val::Text(shown(items[0]))
            &&& items.len() > 1 ==> cell == Val::Text(
                shown(Val::List(items.drop_last())) + ", "@ + shown(items.last()),
            )
            &&& shown(items[k]).len() > 0 || items.len() > 1 ==> cell->Text_0.len() > 0
        }),
{
    law_sheet_cells(rs, fields, root, g, i, j);
    law_list_is_shown(items, k);
    if items.len() == 1 {
        assert(items =~= seq![items[0]]);
        law_shown(seq![], items[0], seq![], 0);
    } else {
        assert(items =~= items.drop_last().push(items.last()));
        law_shown(items.drop_last(), items.last(), seq![], 0);
    }
}

/// Whether texts are what a line of CSV holds for a note: the texts that its values are shown
/// as, and no text where it has none.
pub open spec fn is_csv_row(
    row: Seq<Seq<char>>,
    r: Rec,
    fields: Seq<Seq<char>>,
    root: Seq<char>,
    g: Option<Graph>,
) -> bool {
    row.len() == fields.len() && forall|j: int|
        0 <= j < fields.len() ==> (#[trigger] row[j]) == match looked_up(r, fields[j], root, g) {
            Some(v) => shown(v),
            None => Seq::empty(),
        }
}

/// An export to CSV is the line of the names of the columns and then the line of each note.
pub proof fn law_csv_rows(
    rs: Seq<Rec>,
    fields: Seq<Seq<char>>,
    root: Seq<char>,
    g: Option<Graph>,
    delimiter: u8,
    rows: Seq<Seq<Seq<char>>>,
)
    requires
        rows.len() == rs.len(),
        forall|i: int| 0 <= i < rs.len() ==> is_csv_row(#[trigger] rows[i], rs[i], fields, root, g),
    ensures
        records_export(rs, fields, root, g, Format::Csv { delimiter }) == match csv_table(
            fields,
            rows,
            delimiter,
        ) {
            Ok(b) => Ok::<Export, Failure>(Export::Bytes(b)),
            Err(e) => Err::<Export, Failure>(e),
        },
{
    let own = text_rows(rs, fields, root, g);
    assert forall|i: int| 0 <= i < rs.len() implies rows[i] == #[trigger] own[i] by {
        assert(is_csv_row(rows[i], rs[i], fields, root, g));
        assert(own[i] == text_row(rs[i], fields, root, g));
        assert forall|j: int| 0 <= j < fields.len() implies rows[i][j] == #[trigger] own[i][j] by {
            let v = column_value(rs[i], fields[j], root, g);
            law_shown(seq![], v, seq![], 0);
        }
        assert(rows[i] =~= own[i]);
    }
    assert(rows =~= own);
}

/// A table in CSV is the line of its header and those of its rows, one behind the other; it
/// fails only where a line does.
pub proof fn law_csv_lines(
    header: Seq<Seq<char>>,
    rows: Seq<Seq<Seq<char>>>,
    row: Seq<Seq<char>>,
    delimiter: u8,
)
    ensures
        csv_line(header, delimiter) is Ok ==> csv_table(header, Seq::empty(), delimiter) == Ok::<
            Seq<u8>,
            Failure,
        >(csv_line(header, delimiter)->Ok_0),
        csv_table(header, rows, delimiter) is Ok && csv_line(row, delimiter) is Ok ==> csv_table(
            header,
            rows.push(row),
            delimiter,
        ) == Ok::<Seq<u8>, Failure>(
            csv_table(header, rows, delimiter)->Ok_0 + csv_line(row, delimiter)->Ok_0,
        ),
        csv_table(header, rows, delimiter) is Err || csv_line(row, delimiter) is Err ==> csv_table(
            header,
            rows.push(row),
            delimiter,
        ) is Err,
{
    assert(rows.push(row).drop_last() =~= rows);
    if csv_line(header, delimiter) is Ok {
        let h = csv_line(header, delimiter)->Ok_0;
        assert(csv_lines(Seq::empty(), delimiter) == Ok::<Seq<u8>, Failure>(seq![]));
        assert(h + Seq::<u8>::empty() =~= h);
        if csv_lines(rows, delimiter) is Ok && csv_line(row, delimiter) is Ok {
            let b = csv_lines(rows, delimiter)->Ok_0;
            let l = csv_line(row, delimiter)->Ok_0;
            assert(h + (b + l) =~= h + b + l);
        }
    }
}

/// Each cell of a sheet shows the text that the line of CSV has for the same note and column.
pub proof fn law_sheet_shows_csv(
    rs: Seq<Rec>,
    fields: Seq<Seq<char>>,
    root: Seq<char>,
    g: Option<Graph>,
    i: int,
    j: int,
    row: Seq<Seq<char>>,
)
    requires
        0 <= i < rs.len(),
        0 <= j < fields.len(),
        is_csv_row(row, rs[i], fields, root, g),
    ensures
        shown(sheet_of(rs, fields, root, g)[i + 1][j]) == row[j],
{
    law_sheet_cells(rs, fields, root, g, i, j);
    let v = column_value(rs[i], fields[j], root, g);
    law_shown(seq![], v, shown(v), 0);
    law_shown(seq![], v, seq![], 0);
    assert(row[j] == match looked_up(rs[i], fields[j], root, g) {
        Some(v) => shown(v),
        None => Seq::empty(),
    });
}

// ── YAML and JSON ──────────────────────────────────────────────────────────

/// The text of an export to YAML.
pub open spec fn yaml_of(
    rs: Seq<Rec>,
    fields: Seq<Seq<char>>,
    root: Seq<char>,
    g: Option<Graph>,
) -> Seq<char> {
    records_export(rs, fields, root, g, Format::Yaml)->Ok_0->Text_0
}

/// An export to YAML is the texts of the notes one behind the other, and that of a note is a
/// line of three hyphens and then, for each column, a line of its name, a colon, a blank and
/// what the value of the note is shown as.
pub proof fn law_yaml_lines(
    rs: Seq<Rec>,
    r: Rec,
    fields: Seq<Seq<char>>,
    name: Seq<char>,
    root: Seq<char>,
    g: Option<Graph>,
)
    ensures
        records_export(rs, fields, root, g, Format::Yaml) is Ok,
        records_export(rs, fields, root, g, Format::Yaml)->Ok_0 is Text,
        yaml_of(Seq::empty(), fields, root, g) == Seq::<char>::empty(),
        yaml_of(rs.push(r), fields, root, g) == yaml_of(rs, fields, root, g) + yaml_of(
            seq![r],
            fields,
            root,
            g,
        ),
        yaml_of(seq![r], Seq::empty(), root, g) == "---\n"@,
        yaml_of(seq![r], fields.push(name), root, g) == yaml_of(seq![r], fields, root, g) + name
            + ": "@ + match looked_up(r, name, root, g) {
            Some(v) => shown(v),
            None => Seq::empty(),
        } + "\n"@,
{
    assert(rs.push(r).drop_last() =~= rs);
    assert(seq![r].drop_last() =~= Seq::empty());
    assert(fields.push(name).drop_last() =~= fields);
    law_shown(seq![], Val::Null, seq![], 0);
    assert(yaml_text(Seq::empty(), fields, root, g) =~= Seq::empty());
    assert forall|f: Seq<Seq<char>>| #[trigger]
        yaml_text(seq![r], f, root, g) == yaml_lines(r, f, root, g) by {
        assert(yaml_text(seq![r].drop_last(), f, root, g) =~= Seq::empty());
        assert(Seq::<char>::empty() + yaml_lines(r, f, root, g) =~= yaml_lines(r, f, root, g));
    }
    assert(yaml_lines(r, fields.push(name), root, g) == yaml_lines(r, fields, root, g) + name
        + ": "@ + shown(column_value(r, name, root, g)) + "\n"@);
    assert(yaml_of(seq![r], fields.push(name), root, g) == yaml_text(
        seq![r],
        fields.push(name),
        root,
        g,
    ));
    assert(yaml_of(seq![r], Seq::empty(), root, g) == yaml_text(seq![r], Seq::empty(), root, g));
}

/// What an export has for a note is a mapping of its columns, in each the value that the note
/// has there or null, and of nothing else.
pub proof fn law_columns_are_mapped(
    r: Rec,
    fields: Seq<Seq<char>>,
    root: Seq<char>,
    g: Option<Graph>,
    name: Seq<char>,
)
    ensures
        fields.contains(name) ==> field(column_mapping(r, fields, root, g), name) == Some(
            match looked_up(r, name, root, g) {
                Some(v) => v,
                None => Val::Null,
            },
        ),
        !fields.contains(name) ==> field(column_mapping(r, fields, root, g), name) is None,
    decreases fields.len(),
{
    if fields.len() > 0 {
        let init = fields.drop_last();
        let last = fields.last();
        law_columns_are_mapped(r, init, root, g, name);
        law_entry_is_set(
            column_mapping(r, init, root, g),
            last,
            column_value(r, last, root, g),
            name,
        );
        assert(fields =~= init.push(last));
        if fields.contains(name) && last != name {
            let k = choose|k: int| 0 <= k < fields.len() && fields[k] == name;
            assert(init[k] == name);
        }
        if init.contains(name) {
            let k = choose|k: int| 0 <= k < init.len() && init[k] == name;
            assert(fields[k] == name);
        }
        assert(fields[fields.len() - 1] == last);
    }
}

/// An export to JSON is an array with one object per note, in their order.
pub proof fn law_json_objects(
    rs: Seq<Rec>,
    fields: Seq<Seq<char>>,
    root: Seq<char>,
    g: Option<Graph>,
    objects: Seq<Js>,
    text: Seq<char>,
)
    requires
        objects.len() == rs.len(),
        forall|i: int|
            0 <= i < rs.len() ==> (#[trigger] objects[i]) == json_of(
                Val::Mapping(column_mapping(rs[i], fields, root, g)),
            ),
        json_pretty(held(Js::Array(objects))) == Ok::<Seq<char>, Seq<char>>(text),
    ensures
        records_export(rs, fields, root, g, Format::Json) == Ok::<Export, Failure>(
            Export::Text(text),
        ),
{
    let v = column_mappings(rs, fields, root, g);
    assert(json_of(v)->Array_0 =~= objects) by {
        reveal_with_fuel(json_of, 2);
        reveal_with_fuel(crate::json::json_of_items, 2);
    }
}

// ── Columns ────────────────────────────────────────────────────────────────

/// The names of fields ascend, and are those of the fields before them and no others.
proof fn lemma_names_with(names: Seq<Seq<char>>, m: Seq<(Seq<char>, Val)>, x: Seq<char>)
    requires
        is_text_set(names),
    ensures
        is_text_set(names_with(names, m)),
        names_with(names, m).contains(x) <==> names.contains(x) || exists|k: int|
            0 <= k < m.len() && (#[trigger] m[k]).0 == x,
    decreases m.len(),
{
    if m.len() > 0 {
        let init = m.drop_last();
        lemma_names_with(names, init, x);
        lemma_with_text(names_with(names, init), m.last().0);
        if exists|k: int| 0 <= k < m.len() && (#[trigger] m[k]).0 == x {
            let k = choose|k: int| 0 <= k < m.len() && (#[trigger] m[k]).0 == x;
            if k < init.len() {
                assert(init[k].0 == x);
            }
        }
        if exists|k: int| 0 <= k < init.len() && (#[trigger] init[k]).0 == x {
            let k = choose|k: int| 0 <= k < init.len() && (#[trigger] init[k]).0 == x;
            assert(m[k].0 == x);
        }
        assert(m[m.len() - 1] == m.last());
    }
}

/// Whether a note has a field of a name.
pub open spec fn has_field(r: Rec, name: Seq<char>) -> bool {
    exists|k: int| 0 <= k < r.fields.len() && (#[trigger] r.fields[k]).0 == name
}

/// The names of the fields of notes ascend, and are those that a note has.
pub proof fn law_field_names(rs: Seq<Rec>, name: Seq<char>)
    ensures
        is_text_set(field_names(rs)),
        field_names(rs).contains(name) <==> exists|i: int|
            0 <= i < rs.len() && has_field(#[trigger] rs[i], name),
    decreases rs.len(),
{
    if rs.len() > 0 {
        let init = rs.drop_last();
        law_field_names(init, name);
        lemma_names_with(field_names(init), rs.last().fields, name);
        if exists|i: int| 0 <= i < rs.len() && has_field(#[trigger] rs[i], name) {
            let i = choose|i: int| 0 <= i < rs.len() && has_field(#[trigger] rs[i], name);
            if i < init.len() {
                assert(has_field(init[i], name));
            }
        }
        if exists|i: int| 0 <= i < init.len() && has_field(#[trigger] init[i], name) {
            let i = choose|i: int| 0 <= i < init.len() && has_field(#[trigger] init[i], name);
            assert(has_field(rs[i], name));
        }
        if has_field(rs.last(), name) {
            assert(has_field(rs[rs.len() - 1], name));
        }
    }
}

/// What is kept of a sequence is in it.
proof fn lemma_filtered(s: Seq<Seq<char>>, keep: spec_fn(Seq<char>) -> bool, i: int)
    requires
        0 <= i < s.filter(keep).len(),
    ensures
        s.contains(s.filter(keep)[i]),
    decreases s.len(),
{
    reveal(Seq::filter);
    if s.len() > 0 {
        let init = s.drop_last();
        if i < init.filter(keep).len() {
            lemma_filtered(init, keep, i);
            let k = choose|k: int| 0 <= k < init.len() && init[k] == init.filter(keep)[i];
            assert(s[k] == init.filter(keep)[i]);
        } else {
            assert(s[s.len() - 1] == s.last());
        }
    }
}

/// The columns of an export are those that are asked for, in their order; where none are, they
/// are the name of the note and each field that a note has.
pub proof fn law_columns(rs: Seq<Rec>, select: Seq<Seq<char>>, name: Seq<char>)
    ensures
        select.len() > 0 ==> columns(rs, Some(select)) == select,
        columns(rs, Some(Seq::empty())) == columns(rs, None),
        columns(rs, None).len() > 0 && columns(rs, None)[0] == "_name"@,
        columns(rs, None).contains(name) <==> name == "_name"@ || exists|i: int|
            0 <= i < rs.len() && has_field(#[trigger] rs[i], name),
{
    law_field_names(rs, name);
    let keep = |f: Seq<char>| f != "_name"@;
    let rest = field_names(rs).filter(keep);
    let cols = columns(rs, None);
    assert(cols == seq!["_name"@] + rest);
    if cols.contains(name) && name != "_name"@ {
        let k = choose|k: int| 0 <= k < cols.len() && cols[k] == name;
        assert(rest[k - 1] == name);
        lemma_filtered(field_names(rs), keep, k - 1);
    }
    if field_names(rs).contains(name) && name != "_name"@ {
        let q = choose|q: int| 0 <= q < field_names(rs).len() && field_names(rs)[q] == name;
        field_names(rs).lemma_filter_contains(keep, q);
        let k = choose|k: int| 0 <= k < rest.len() && rest[k] == name;
        assert(cols[k + 1] == name);
    }
    assert(cols[0] == "_name"@);
}

// ── Formats and paths ──────────────────────────────────────────────────────

/// The format of an export goes by the extension of its file, in any case of letters.
pub proof fn law_formats(path: Seq<char>, name: Seq<char>, e: Seq<char>)
    requires
        file_name(path) == Some(name),
        extension(name) == Some(e),
    ensures
        lowered(e) == "csv"@ ==> format_of(path) == Ok::<Format, Failure>(
            Format::Csv { delimiter: ',' as u8 },
        ),
        lowered(e) == "tsv"@ ==> format_of(path) == Ok::<Format, Failure>(
            Format::Csv { delimiter: '\t' as u8 },
        ),
        lowered(e) == "json"@ ==> format_of(path) == Ok::<Format, Failure>(Format::Json),
        lowered(e) == "yaml"@ || lowered(e) == "yml"@ ==> format_of(path) == Ok::<Format, Failure>(
            Format::Yaml,
        ),
        lowered(e) == "xlsx"@ ==> format_of(path) == Ok::<Format, Failure>(Format::Xlsx),
        lowered(e) == "md"@ ==> format_of(path) is Err,
{
    reveal_strlit("csv");
    reveal_strlit("tsv");
    reveal_strlit("json");
    reveal_strlit("yaml");
    reveal_strlit("yml");
    reveal_strlit("xlsx");
    reveal_strlit("md");
    assert("csv"@[0] == 'c' && "tsv"@[0] == 't' && "json"@[0] == 'j' && "xlsx"@[0] == 'x');
    assert("yaml"@[0] == 'y' && "yml"@[0] == 'y' && "md"@[0] == 'm');
    assert(',' as u8 == 44 && '\t' as u8 == 9);
}

/// An export goes to a path in the vault: none that is empty, absolute or leads upwards, and no
/// note.
pub proof fn law_export_paths(requested: Seq<char>)
    ensures
        path_refusal(requested) is None <==> requested.len() > 0 && !is_absolute(requested)
            && !components(requested).contains(".."@) && lower_extension(requested) != Some("md"@),
{
}

/// An export whose path is taken goes to the first that is not among those with a number
/// behind the name.
pub proof fn law_first_free_path(
    taken: Seq<Seq<char>>,
    folder: Seq<char>,
    name: Seq<char>,
    n: nat,
    k: nat,
)
    requires
        n <= k <= 10_000,
        !has_path(taken, suffixed(folder, name, k)),
        forall|m: nat| n <= m < k ==> has_path(taken, #[trigger] suffixed(folder, name, m)),
    ensures
        free_export(taken, folder, name, n) == Some(suffixed(folder, name, k)),
    decreases k - n,
{
    if n < k {
        assert(has_path(taken, suffixed(folder, name, n)));
        law_first_free_path(taken, folder, name, n + 1, k);
    }
}

/// The path of an export with a number has the number in brackets before the extension.
pub proof fn law_numbered_path(folder: Seq<char>, name: Seq<char>, n: nat)
    ensures
        extension(name) is Some ==> suffixed(folder, name, n) == below(
            folder,
            stem(name) + " ("@ + decimal(n) + ")"@ + "."@ + extension(name)->0,
        ),
        extension(name) is None ==> suffixed(folder, name, n) == below(
            folder,
            stem(name) + " ("@ + decimal(n) + ")"@,
        ),
{
    let base = stem(name) + " ("@ + decimal(n) + ")"@;
    if let Some(e) = extension(name) {
        assert(base + ("."@ + e) =~= base + "."@ + e);
    } else {
        assert(base + Seq::<char>::empty() =~= base);
    }
}

/// A cell of a table is a number or a boolean where its text is one, and else the text.
pub proof fn law_cells_are_typed(n: i64, w: Seq<char>)
    ensures
        typed(signed_decimal(n as int)) == Val::Int(n),
        typed("true"@) == Val::Bool(true),
        typed("false"@) == Val::Bool(false),
        is_bare_word(w) && !is_reserved(w) ==> typed(w) == Val::Text(w),
{
    law_integer_is_read_back(n);
    reveal_strlit("true");
    reveal_strlit("false");
    reveal_strlit("nan");
    reveal_strlit("inf");
    reveal_strlit("infinity");
    lemma_word_is_no_number("true"@);
    lemma_word_is_no_number("false"@);
    assert(lowered("true"@)[0] == 't' && lowered("false"@)[0] == 'f');
    assert("nan"@[0] == 'n' && "inf"@[0] == 'i' && "infinity"@[0] == 'i');
    assert("true"@[0] == 't');
    assert("false"@[0] == 'f');
    if is_bare_word(w) && !is_reserved(w) {
        lemma_word_is_no_number(w);
        assert(lowered(w) != "true"@ && lowered(w) != "false"@);
        if w == "true"@ {
            assert(lowered(w) =~= "true"@);
        }
        if w == "false"@ {
            assert(lowered(w) =~= "false"@);
        }
    }
}

/// A text that starts with a letter is no integer and no decimal number.
proof fn lemma_word_is_no_number(w: Seq<char>)
    requires
        w.len() > 0,
        'a' <= w[0] <= 'z' || 'A' <= w[0] <= 'Z',
    ensures
        integer_of(w) is None,
        is_float_text(w) ==> lowered(w) == "nan"@ || lowered(w) == "inf"@ || lowered(w)
            == "infinity"@,
{
    assert(unsigned(w) == w);
    assert(digits_end(w, 0) == 0);
    assert(mantissa_end(w) == 0);
    assert(!is_decimal_number(w));
    assert(!('0' <= w[0] <= '9'));
}

// ── Documents ──────────────────────────────────────────────────────────────

/// A document is exported as a sheet of its table: a row of the names of the columns, and each
/// cell as what its text is; a document without a table is refused, and so it is as CSV. CSV has
/// the line of the names and those of the rows.
pub proof fn law_documents_are_exported(
    v: Js,
    header: Seq<Seq<char>>,
    rows: Seq<Seq<Seq<char>>>,
    i: int,
    j: int,
    delimiter: u8,
)
    ensures
        table_of(v) is None ==> value_export(v, Format::Xlsx) is Err && value_export(
            v,
            Format::Csv { delimiter },
        ) is Err,
        table_of(v) == Some((header, rows)) ==> {
            let e = value_export(v, Format::Xlsx);
            &&& e is Ok && e->Ok_0 is Sheet
            &&& e->Ok_0->Sheet_0.len() == rows.len() + 1
            &&& e->Ok_0->Sheet_0[0].len() == header.len()
            &&& 0 <= j < header.len() ==> e->Ok_0->Sheet_0[0][j] == Val::Text(header[j])
            &&& 0 <= i < rows.len() ==> e->Ok_0->Sheet_0[i + 1].len() == rows[i].len()
            &&& 0 <= i < rows.len() && 0 <= j < rows[i].len() ==> e->Ok_0->Sheet_0[i + 1][j]
                == typed(rows[i][j])
        },
        table_of(v) == Some((header, rows)) && header.len() > 0 ==> value_export(
            v,
            Format::Csv { delimiter },
        ) == match csv_table(header, rows, delimiter) {
            Ok(b) => Ok::<Export, Failure>(Export::Bytes(b)),
            Err(e) => Err::<Export, Failure>(e),
        },
        json_pretty(held(v)) is Ok ==> value_export(v, Format::Json) == Ok::<Export, Failure>(
            Export::Text(json_pretty(held(v))->Ok_0),
        ),
{
}

} // verus!
