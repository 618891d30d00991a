//! What records promise.

use crate::links::Graph;
use crate::mutation::laws::{is_plain_component, lemma_last_component};
use crate::path::{below, file_name, stem};
use crate::record::{
    civil_date, decoded_from, escaped_at, field, lemma_key_at, looked_up, note_name, shown,
    shown_entries, shown_items, Rec, Val,
};
use crate::text::laws::law_joined;
use crate::text::{bytes, joined, last_char_at, signed_decimal};
use vstd::prelude::*;

verus! {

/// Whether a year has a day more.
pub open spec fn is_leap(y: nat) -> bool {
    y % 4 == 0 && (y % 100 != 0 || y % 400 == 0)
}

/// How many days a month has.
pub open spec fn days_in_month(y: nat, m: nat) -> nat {
    if m == 2 {
        if is_leap(y) {
            29
        } else {
            28
        }
    } else if m == 4 || m == 6 || m == 9 || m == 11 {
        30
    } else {
        31
    }
}

/// How many days lie before a year, from the start of year 0 on.
pub open spec fn days_before_year(y: nat) -> nat
    decreases y,
{
    if y == 0 {
        0
    } else if is_leap((y - 1) as nat) {
        days_before_year((y - 1) as nat) + 366
    } else {
        days_before_year((y - 1) as nat) + 365
    }
}

/// How many days of a year lie before a month.
pub open spec fn days_before_month(y: nat, m: nat) -> nat
    decreases m,
{
    if m <= 1 {
        0
    } else {
        days_before_month(y, (m - 1) as nat) + days_in_month(y, (m - 1) as nat)
    }
}

/// How many days lie before a date, from the start of year 0 on.
pub open spec fn days_before(y: nat, m: nat, d: nat) -> int {
    days_before_year(y) + days_before_month(y, m) + d - 1
}

/// One number more has one multiple more below it where it is a multiple itself.
proof fn lemma_multiples(y: nat)
    ensures
        (y + 4) / 4 == (y + 3) / 4 + if y % 4 == 0 {
            1int
        } else {
            0int
        },
        (y + 100) / 100 == (y + 99) / 100 + if y % 100 == 0 {
            1int
        } else {
            0int
        },
        (y + 400) / 400 == (y + 399) / 400 + if y % 400 == 0 {
            1int
        } else {
            0int
        },
{
}

/// A multiple of 400 is one of 100, and a multiple of 100 one of 4.
proof fn lemma_nested_multiples(y: nat)
    ensures
        y % 400 == 0 ==> y % 100 == 0,
        y % 100 == 0 ==> y % 4 == 0,
{
    if y % 400 == 0 {
        assert(y == 100 * (4 * (y / 400)));
    }
    if y % 100 == 0 {
        assert(y == 4 * (25 * (y / 100)));
    }
}

/// The days before a year, by counting leap years.
proof fn lemma_days_before_year(y: nat)
    ensures
        days_before_year(y) == 365 * y + (y + 3) / 4 - (y + 99) / 100 + (y + 399) / 400,
    decreases y,
{
    if y > 0 {
        let x = (y - 1) as nat;
        lemma_days_before_year(x);
        lemma_multiples(x);
        lemma_nested_multiples(x);
        assert(y + 3 == x + 4 && y + 99 == x + 100 && y + 399 == x + 400);
    }
}

/// The days before a month, month by month.
proof fn lemma_days_before_month(y: nat, m: nat)
    requires
        1 <= m <= 12,
    ensures
        m <= 2 ==> days_before_month(y, m) == 31 * (m - 1),
        m > 2 ==> days_before_month(y, m) == (153 * (m - 3) + 2) / 5 + if is_leap(y) {
            60int
        } else {
            59int
        },
    decreases m,
{
    if m > 1 {
        lemma_days_before_month(y, (m - 1) as nat);
    }
}

/// The year of a day within four hundred years that start on the first of March.
proof fn lemma_year_of_era(doe: nat)
    requires
        doe < 146097,
    ensures
        ({
            let yoe = (doe - doe / 1460 + doe / 36524 - doe / 146096) / 365;
            let doy = doe - (365 * yoe + yoe / 4 - yoe / 100);
            0 <= yoe < 400 && 0 <= doy <= 365 && (doy == 365 ==> is_leap((yoe + 1) as nat))
        }),
{
    let century = doe / 36524;
    let yoe = (doe - doe / 1460 + doe / 36524 - doe / 146096) / 365;
    assert(0 <= century <= 4);
    if century == 0 {
        assert(doe < 36524);
    } else if century == 1 {
        assert(36524 <= doe < 73048);
    } else if century == 2 {
        assert(73048 <= doe < 109572);
    } else if century == 3 {
        assert(109572 <= doe < 146096);
    } else {
        assert(doe == 146096);
    }
}

/// The year that a day of the era falls in, counted from the start of year 0.
proof fn lemma_march_year(era: nat, yoe: nat)
    requires
        yoe < 400,
    ensures
        ({
            let march = yoe + era * 400;
            365 * march + march / 4 - march / 100 + march / 400 == era * 146097 + 365 * yoe + yoe
                / 4 - yoe / 100
        }),
        is_leap((yoe + era * 400) as nat) == is_leap(yoe),
        is_leap((yoe + 1 + era * 400) as nat) == is_leap((yoe + 1) as nat),
{
    let march = yoe + era * 400;
    assert(march / 4 == yoe / 4 + era * 100);
    assert(march / 100 == yoe / 100 + era * 4);
    assert(march / 400 == era);
    assert(march % 4 == yoe % 4 && march % 100 == yoe % 100 && march % 400 == yoe % 400);
    let next = yoe + 1;
    assert((march + 1) % 4 == next % 4);
    assert((march + 1) % 100 == next % 100);
    assert((march + 1) % 400 == next % 400);
}

/// The days before the first of March of a year, and before the year that follows.
proof fn lemma_before_march(y: nat)
    ensures
        ({
            let f = 365 * y + y / 4 - y / 100 + y / 400;
            &&& days_before_year(y) + if is_leap(y) {
                60int
            } else {
                59int
            } == f + 60
            &&& days_before_year(y + 1) == f + 366
        }),
{
    lemma_days_before_year(y);
    lemma_multiples(y);
    lemma_nested_multiples(y);
    assert((y + 4) / 4 == y / 4 + 1 && (y + 100) / 100 == y / 100 + 1 && (y + 400) / 400 == y / 400
        + 1);
}

/// The month of a day of a year that starts on the first of March.
proof fn lemma_month_of_year(doy: nat)
    requires
        doy <= 365,
    ensures
        ({
            let mp = (5 * doy + 2) / 153;
            let d = doy - (153 * mp + 2) / 5 + 1;
            &&& mp < 12
            &&& 1 <= d <= 31
            &&& (mp == 1 || mp == 3 || mp == 6 || mp == 8) ==> d <= 30
            &&& mp == 11 ==> d <= 29 && (d == 29 ==> doy == 365)
        }),
{
}

/// The date of a number of days after 1970-01-01 is a day of the calendar, and the
/// days before it are those before 1970-01-01 and the number.
pub proof fn law_date_counts_back(days: nat)
    ensures
        ({
            let (y, m, d) = civil_date(days);
            1 <= m <= 12 && 1 <= d <= days_in_month(y, m) && days_before(y, m, d) == days_before(
                1970,
                1,
                1,
            ) + days
        }),
{
    let z = days + 719468;
    let era = z / 146097;
    let doe = (z - era * 146097) as nat;
    lemma_year_of_era(doe);
    let yoe = ((doe - doe / 1460 + doe / 36524 - doe / 146096) / 365) as nat;
    let doy = (doe - (365 * yoe + yoe / 4 - yoe / 100)) as nat;
    let mp = (5 * doy + 2) / 153;
    let march = yoe + era * 400;
    let (y, m, d) = civil_date(days);
    lemma_march_year(era, yoe);
    lemma_month_of_year(doy);
    lemma_before_march(march);
    lemma_before_march(1969);
    lemma_days_before_month(y, m);
    assert(days_before(1970, 1, 1) == 719528);
    if m <= 2 {
        assert(y == march + 1);
    }
}

// ── Fields ─────────────────────────────────────────────────────────────────

/// Whether no name stands twice among some fields.
pub open spec fn are_distinct(m: Seq<(Seq<char>, Val)>) -> bool {
    forall|i: int, j: int|
        0 <= i < j < m.len() ==> (#[trigger] m[i]).0 != (#[trigger] m[j]).0
}

/// Whether a name is that of a field of the frontmatter: those that start with an underscore
/// are computed.
pub open spec fn is_own_field(name: Seq<char>) -> bool {
    name.len() > 0 ==> name[0] != '_'
}

/// The value of a field of the frontmatter is the one that stands with its name, and a name
/// that stands nowhere has none.
pub proof fn law_field_is_found(m: Seq<(Seq<char>, Val)>, name: Seq<char>, i: int)
    ensures
        are_distinct(m) && 0 <= i < m.len() && m[i].0 == name ==> field(m, name) == Some(m[i].1),
        (forall|k: int| 0 <= k < m.len() ==> (#[trigger] m[k]).0 != name) ==> field(m, name) is None,
        field(m, name) is Some ==> m.contains((name, field(m, name)->0)),
{
    lemma_key_at(m, name, 0);
    if let Some(k) = crate::record::key_at(m, name, 0) {
        assert(m[k] == (name, m[k].1));
        if are_distinct(m) && 0 <= i < m.len() && m[i].0 == name && k != i {
            if k < i {
                assert(m[k].0 != m[i].0);
            } else {
                assert(m[i].0 != m[k].0);
            }
        }
    }
}

/// A record shows the fields of its frontmatter as they stand there.
pub proof fn law_own_field_is_looked_up(
    r: Rec,
    name: Seq<char>,
    i: int,
    root: Seq<char>,
    g: Option<Graph>,
)
    requires
        is_own_field(name),
    ensures
        are_distinct(r.fields) && 0 <= i < r.fields.len() && r.fields[i].0 == name ==> looked_up(
            r,
            name,
            root,
            g,
        ) == Some(r.fields[i].1),
        (forall|k: int| 0 <= k < r.fields.len() ==> (#[trigger] r.fields[k]).0 != name)
            ==> looked_up(r, name, root, g) is None,
{
    reveal_strlit("_name");
    reveal_strlit("_path");
    reveal_strlit("_folder");
    reveal_strlit("_modified");
    reveal_strlit("_created");
    reveal_strlit("_links");
    reveal_strlit("_link_count");
    reveal_strlit("_backlinks");
    reveal_strlit("_backlink_count");
    reveal_strlit("_body");
    reveal_strlit("_length");
    reveal_strlit("_body_length");
    assert("_name"@[0] == '_' && "_path"@[0] == '_' && "_folder"@[0] == '_' && "_modified"@[0]
        == '_' && "_created"@[0] == '_' && "_links"@[0] == '_' && "_link_count"@[0] == '_'
        && "_backlinks"@[0] == '_' && "_backlink_count"@[0] == '_' && "_body"@[0] == '_'
        && "_length"@[0] == '_' && "_body_length"@[0] == '_');
    law_field_is_found(r.fields, name, i);
}

/// Whether a name is one that a note can have as it stands: one component, without escapes.
pub open spec fn is_note_name(name: Seq<char>) -> bool {
    &&& is_plain_component(name)
    &&& !name.contains('%')
}

/// A text without percent signs is decoded to itself.
proof fn lemma_decoded_plain(s: Seq<char>, i: int)
    requires
        !s.contains('%'),
        0 <= i <= s.len(),
    ensures
        decoded_from(s, i) == s.skip(i),
    decreases s.len() - i,
{
    if i < s.len() {
        assert(s[i] != '%') by {
            if s[i] == '%' {
                assert(s.contains('%'));
            }
        }
        assert(escaped_at(s, i) is None);
        lemma_decoded_plain(s, i + 1);
        assert(s.skip(i) =~= seq![s[i]] + s.skip(i + 1));
    } else {
        assert(s.skip(i) =~= seq![]);
    }
}

/// The note of a file in a folder has the name of the file without `.md`, whatever the
/// folder, and each record shows it as `_name`.
pub proof fn law_note_has_the_name_of_its_file(
    r: Rec,
    folder: Seq<char>,
    name: Seq<char>,
    root: Seq<char>,
    g: Option<Graph>,
)
    requires
        is_note_name(name),
        r.path == below(folder, name + ".md"@),
    ensures
        note_name(r.path) == name,
        looked_up(r, "_name"@, root, g) == Some(Val::Text(name)),
{
    reveal_strlit(".md");
    reveal_strlit(".");
    reveal_strlit("..");
    let file = name + ".md"@;
    assert(".md"@.len() == 3);
    assert(file.len() >= 4);
    assert("."@.len() == 1 && ".."@.len() == 2);
    assert(!file.contains('/')) by {
        if file.contains('/') {
            let k = choose|k: int| 0 <= k < file.len() && file[k] == '/';
            if k < name.len() {
                assert(name[k] == '/');
                assert(name.contains('/'));
            } else {
                assert(".md"@[k - name.len()] == '/');
            }
        }
    }
    assert(is_plain_component(file));
    lemma_last_component(folder, file);
    assert(file_name(r.path) == Some(file));
    let n = file.len() as int;
    assert(file[n - 1] == 'd' && file[n - 2] == 'm' && file[n - 3] == '.');
    reveal_with_fuel(last_char_at, 4);
    assert(last_char_at(file, '.', n) == Some(n - 3));
    assert(stem(file) =~= name);
    lemma_decoded_plain(name, 0);
    assert(name.skip(0) =~= name);
}

/// A record has as its length that of its text in bytes, where it has its text.
pub proof fn law_length_is_that_of_the_text(
    r: Rec,
    text: Seq<char>,
    root: Seq<char>,
    g: Option<Graph>,
)
    requires
        r.content == Some(text),
    ensures
        looked_up(r, "_length"@, root, g) == Some(Val::Int(bytes(text) as i64)),
{
    reveal_strlit("_name");
    reveal_strlit("_path");
    reveal_strlit("_folder");
    reveal_strlit("_modified");
    reveal_strlit("_created");
    reveal_strlit("_links");
    reveal_strlit("_link_count");
    reveal_strlit("_backlinks");
    reveal_strlit("_backlink_count");
    reveal_strlit("_body");
    reveal_strlit("_length");
    assert("_length"@.len() == 7 && "_length"@[1] == 'l' && "_length"@[2] == 'e');
    assert("_folder"@.len() == 7 && "_folder"@[1] == 'f');
    assert("_links"@.len() == 6 && "_body"@.len() == 5 && "_name"@.len() == 5 && "_path"@.len()
        == 5);
    assert("_modified"@.len() == 9 && "_created"@.len() == 8 && "_link_count"@.len() == 11
        && "_backlinks"@.len() == 10 && "_backlink_count"@.len() == 15);
}

// ── Showing values ─────────────────────────────────────────────────────────

/// What values are shown as: a text as it is, a number in decimal, a boolean by its name,
/// null as nothing, and a list as its items with a comma and a blank between each two.
pub proof fn law_shown(items: Seq<Val>, x: Val, s: Seq<char>, n: i64)
    ensures
        shown(Val::Text(s)) == s,
        shown(Val::Int(n)) == signed_decimal(n as int),
        shown(Val::Bool(true)) == "true"@,
        shown(Val::Bool(false)) == "false"@,
        shown(Val::Null) == Seq::<char>::empty(),
        shown(Val::List(Seq::empty())) == Seq::<char>::empty(),
        shown(Val::List(seq![x])) == shown(x),
        items.len() > 0 ==> shown(Val::List(items.push(x))) == shown(Val::List(items)) + ", "@
            + shown(x),
{
    reveal_with_fuel(shown, 2);
    reveal_with_fuel(shown_items, 2);
    assert(shown_items(Seq::<Val>::empty()) =~= Seq::empty());
    assert(shown_items(seq![x]) =~= seq![shown(x)]);
    assert(shown_items(items.push(x)) =~= shown_items(items).push(shown(x)));
    law_joined(shown_items(items), shown(x), ", "@);
    assert(shown(Val::List(seq![x])) == joined(shown_items(seq![x]), ", "@));
    assert(shown(Val::List(items.push(x))) == joined(shown_items(items.push(x)), ", "@));
}

/// A mapping is shown as its entries, each as its key, a colon, a blank and its value, with a
/// comma and a blank between each two; a floating-point number is shown as it is written.
pub proof fn law_mapping_is_shown(
    m: Seq<(Seq<char>, Val)>,
    key: Seq<char>,
    x: Val,
    f: (u64, Seq<char>),
)
    ensures
        shown(Val::Float(f)) == f.1,
        shown(Val::Mapping(Seq::empty())) == Seq::<char>::empty(),
        shown(Val::Mapping(seq![(key, x)])) == key + ": "@ + shown(x),
        m.len() > 0 ==> shown(Val::Mapping(m.push((key, x)))) == shown(Val::Mapping(m)) + ", "@ + (
        key + ": "@ + shown(x)),
{
    reveal_with_fuel(shown, 2);
    reveal_with_fuel(shown_entries, 2);
    let e = key + ": "@ + shown(x);
    assert(shown_entries(Seq::<(Seq<char>, Val)>::empty()) =~= Seq::empty());
    assert(shown_entries(seq![(key, x)]) =~= seq![e]);
    assert(shown_entries(m.push((key, x))) =~= shown_entries(m).push(e));
    law_joined(shown_entries(m), e, ", "@);
    assert(shown(Val::Mapping(seq![(key, x)])) == joined(shown_entries(seq![(key, x)]), ", "@));
    assert(shown(Val::Mapping(m.push((key, x)))) == joined(
        shown_entries(m.push((key, x))),
        ", "@,
    ));
}

/// An item of a list that is shown as something makes the list shown as something.
pub proof fn law_list_is_shown(items: Seq<Val>, i: int)
    requires
        0 <= i < items.len(),
    ensures
        shown(Val::List(items)).len() >= shown(items[i]).len(),
        items.len() > 1 ==> shown(Val::List(items)).len() > 0,
    decreases items.len(),
{
    reveal_strlit(", ");
    let init = items.drop_last();
    let last = items.last();
    law_shown(init, last, seq![], 0);
    if init.len() == 0 {
        assert(items =~= seq![last]);
    } else {
        assert(items =~= init.push(last));
        if i < init.len() {
            law_list_is_shown(init, i);
        }
    }
}

} // verus!
