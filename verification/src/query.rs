//! Building the textual query document sent to the remote geodata service.
//!
//! For every geographic bound and every enabled category filter the builder
//! emits one clause scoped to that bound's `(south, west, north, east)`
//! box; a configuration with no enabled filter yields no document at all,
//! so no vacuous network call is made.  Coordinates are rendered from their
//! fixed-point representation with exactly six decimal places.

use vstd::prelude::*;
use vstd::string::StrSliceExecFns;
use vstd::string::StringExecFns;
use crate::geom::GeoRect;
use crate::settings::Category;
use crate::settings::SettingsOverlay;
use crate::settings::enabled_pairs;
use crate::settings::keys_canonical;

verus! {

pub open spec fn digit_char(d: nat) -> char {
    if d == 0 {
        '0'
    } else if d == 1 {
        '1'
    } else if d == 2 {
        '2'
    } else if d == 3 {
        '3'
    } else if d == 4 {
        '4'
    } else if d == 5 {
        '5'
    } else if d == 6 {
        '6'
    } else if d == 7 {
        '7'
    } else if d == 8 {
        '8'
    } else {
        '9'
    }
}

/// Decimal digits of `n`, most significant first, no leading zeros.
pub open spec fn dec_digits(n: nat) -> Seq<char>
    decreases n,
{
    if n < 10 {
        seq![digit_char(n)]
    } else {
        dec_digits(n / 10).push(digit_char(n % 10))
    }
}

/// Exactly `w` decimal digits of `n`, zero-padded on the left.
pub open spec fn dec_digits_pad(n: nat, w: nat) -> Seq<char>
    decreases w,
{
    if w == 0 {
        Seq::empty()
    } else {
        dec_digits_pad(n / 10, (w - 1) as nat).push(digit_char(n % 10))
    }
}

/// A fixed-point coordinate (degrees scaled by a million) written in
/// decimal: optional sign, integer part, a point, six decimal places.
pub open spec fn dec6(v: int) -> Seq<char> {
    if v < 0 {
        seq!['-'] + dec6_abs((-v) as nat)
    } else {
        dec6_abs(v as nat)
    }
}

pub open spec fn dec6_abs(a: nat) -> Seq<char> {
    dec_digits(a / 1_000_000) + seq!['.'] + dec_digits_pad(a % 1_000_000, 6)
}

fn digit_str(d: u64) -> (s: &'static str)
    requires
        d < 10,
    ensures
        s@ == seq![digit_char(d as nat)],
{
    proof {
        reveal_strlit("0");
        reveal_strlit("1");
        reveal_strlit("2");
        reveal_strlit("3");
        reveal_strlit("4");
        reveal_strlit("5");
        reveal_strlit("6");
        reveal_strlit("7");
        reveal_strlit("8");
        reveal_strlit("9");
    }
    let s: &'static str = match d {
        0 => "0",
        1 => "1",
        2 => "2",
        3 => "3",
        4 => "4",
        5 => "5",
        6 => "6",
        7 => "7",
        8 => "8",
        _ => "9",
    };
    proof {
        assert(s@ =~= seq![digit_char(d as nat)]);
    }
    s
}

fn u64_dec(n: u64) -> (s: String)
    ensures
        s@ == dec_digits(n as nat),
    decreases n,
{
    if n < 10 {
        digit_str(n).to_owned()
    } else {
        let mut s = u64_dec(n / 10);
        s.append(digit_str(n % 10));
        proof {
            assert(s@ =~= dec_digits(n as nat));
        }
        s
    }
}

fn u64_dec_pad(n: u64, w: u64) -> (s: String)
    ensures
        s@ == dec_digits_pad(n as nat, w as nat),
    decreases w,
{
    if w == 0 {
        String::new()
    } else {
        let mut s = u64_dec_pad(n / 10, w - 1);
        s.append(digit_str(n % 10));
        proof {
            assert(s@ =~= dec_digits_pad(n as nat, w as nat));
        }
        s
    }
}

/// Render a fixed-point coordinate in decimal, e.g. `52192370` as
/// `"52.192370"`.
pub fn dec6_string(v: i64) -> (s: String)
    ensures
        s@ == dec6(v as int),
{
    let a: u64 = if v < 0 {
        (-(v as i128)) as u64
    } else {
        v as u64
    };
    proof {
        if v < 0 {
            assert(a as nat == (-(v as int)) as nat);
        }
    }
    let mut s: String = if v < 0 {
        proof {
            reveal_strlit("-");
        }
        let m = "-".to_owned();
        proof {
            assert(m@ =~= seq!['-']);
        }
        m
    } else {
        String::new()
    };
    s.append(u64_dec(a / 1_000_000).as_str());
    s.append(".");
    proof {
        reveal_strlit(".");
        assert("."@ =~= seq!['.']);
    }
    s.append(u64_dec_pad(a % 1_000_000, 6).as_str());
    proof {
        if v < 0 {
            assert(s@ =~= seq!['-'] + dec6_abs(a as nat));
        } else {
            assert(s@ =~= dec6_abs(a as nat));
        }
    }
    s
}

/// The text of one clause: `way["key"](s,w,n,e);` for a wildcard filter,
/// `way["key"="value"](s,w,n,e);` for a specific one, with the bound
/// written as south, west, north, east.
pub open spec fn clause_text(key: Seq<char>, value: Option<Seq<char>>, b: GeoRect) -> Seq<char> {
    let head = "way[\""@ + key;
    let head2 = if value is Some {
        head + "\"=\""@ + value->0 + "\"]("@
    } else {
        head + "\"]("@
    };
    head2 + dec6(b.south as int) + ","@ + dec6(b.west as int) + ","@ + dec6(b.north as int) + ","@
        + dec6(b.east as int) + ");"@
}

fn render_clause(key: &String, value: &Option<String>, b: &GeoRect) -> (s: String)
    ensures
        s@ == clause_text(key@, if value is Some {
            Some((*value)->0@)
        } else {
            None
        }, *b),
{
    let mut s = "way[\"".to_owned();
    s.append(key.as_str());
    match value {
        Some(v) => {
            s.append("\"=\"");
            s.append(v.as_str());
            s.append("\"](");
        },
        None => {
            s.append("\"](");
        },
    }
    s.append(dec6_string(b.south).as_str());
    s.append(",");
    s.append(dec6_string(b.west).as_str());
    s.append(",");
    s.append(dec6_string(b.north).as_str());
    s.append(",");
    s.append(dec6_string(b.east).as_str());
    s.append(");");
    proof {
        reveal_strlit(",");
        assert(","@ =~= seq![',']);
        assert(s@ =~= clause_text(key@, if value is Some {
            Some((*value)->0@)
        } else {
            None
        }, *b));
    }
    s
}

/// One clause per bound and per enabled filter, bounds outermost.
pub open spec fn clauses_spec(bounds: Seq<GeoRect>, cats: Seq<Category>) -> Seq<
    (Seq<char>, Option<Seq<char>>, GeoRect),
>
    decreases bounds.len(),
{
    if bounds.len() == 0 {
        Seq::empty()
    } else {
        clauses_spec(bounds.drop_last(), cats) + enabled_pairs(cats).map_values(
            |p: (Seq<char>, Option<Seq<char>>)| (p.0, p.1, bounds.last()),
        )
    }
}

/// The concatenated text of a clause list.
pub open spec fn clauses_text(cs: Seq<(Seq<char>, Option<Seq<char>>, GeoRect)>) -> Seq<char>
    decreases cs.len(),
{
    if cs.len() == 0 {
        Seq::empty()
    } else {
        clauses_text(cs.drop_last()) + clause_text(cs.last().0, cs.last().1, cs.last().2)
    }
}

/// The whole query document around a nonempty clause list.
pub open spec fn doc_spec(cs: Seq<(Seq<char>, Option<Seq<char>>, GeoRect)>) -> Seq<char> {
    "[out:json];("@ + clauses_text(cs) + ");(._;>;);out body geom;"@
}

/// Build the remote query document for the given geographic bounds under
/// the current configuration.  When no category filter is enabled, or
/// there is no bound, nothing should be fetched and no document is built.
///
/// The configuration must carry canonical lower-case tag keys: the clause
/// emits the key verbatim, and the canonical convention is stated here,
/// in one place, rather than re-folded at every call site.
pub fn build_overpass_query(bounds: &Vec<GeoRect>, settings: &SettingsOverlay) -> (res: Option<
    String,
>)
    requires
        keys_canonical(settings.categories@),
    ensures
        res is Some <==> clauses_spec(bounds@, settings.categories@).len() > 0,
        res is Some ==> (res->0)@ == doc_spec(clauses_spec(bounds@, settings.categories@)),
{
    let filters = settings.enabled_filters();
    let ghost pairs = enabled_pairs(settings.categories@);
    let mut body = String::new();
    let mut i: usize = 0;
    proof {
        assert(bounds@.take(0) =~= Seq::<GeoRect>::empty());
        assert(body@ =~= clauses_text(clauses_spec(bounds@.take(0), settings.categories@)));
    }
    while i < bounds.len()
        invariant
            i <= bounds@.len(),
            pairs == enabled_pairs(settings.categories@),
            filters@.map_values(
                |p: (String, Option<String>)| crate::settings::pair_view(p),
            ) == pairs,
            body@ == clauses_text(clauses_spec(bounds@.take(i as int), settings.categories@)),
        decreases bounds@.len() - i,
    {
        let b = bounds[i];
        let ghost pre_clauses = clauses_spec(bounds@.take(i as int), settings.categories@);
        let ghost row = pairs.map_values(|p: (Seq<char>, Option<Seq<char>>)| (p.0, p.1, b));
        let mut j: usize = 0;
        proof {
            assert(row.take(0) =~= Seq::<(Seq<char>, Option<Seq<char>>, GeoRect)>::empty());
            assert(body@ =~= clauses_text(pre_clauses) + clauses_text(row.take(0)));
        }
        while j < filters.len()
            invariant
                j <= filters@.len(),
                pairs == enabled_pairs(settings.categories@),
                filters@.map_values(
                    |p: (String, Option<String>)| crate::settings::pair_view(p),
                ) == pairs,
                row == pairs.map_values(|p: (Seq<char>, Option<Seq<char>>)| (p.0, p.1, b)),
                body@ == clauses_text(pre_clauses) + clauses_text(row.take(j as int)),
            decreases filters@.len() - j,
        {
            let clause = render_clause(&filters[j].0, &filters[j].1, &b);
            let ghost pre_body = body@;
            body.append(clause.as_str());
            proof {
                assert(crate::settings::pair_view(filters@[j as int]) == pairs[j as int]);
                assert(row[j as int] == (pairs[j as int].0, pairs[j as int].1, b));
                assert(clause@ == clause_text(row[j as int].0, row[j as int].1, row[j as int].2));
                assert(row.take(j + 1).drop_last() =~= row.take(j as int));
                assert(row.take(j + 1).last() == row[j as int]);
                assert(body@ =~= clauses_text(pre_clauses) + clauses_text(row.take(j + 1)));
            }
            j = j + 1;
        }
        proof {
            assert(row.take(row.len() as int) =~= row);
            assert(bounds@.take(i + 1).drop_last() =~= bounds@.take(i as int));
            assert(bounds@.take(i + 1).last() == bounds@[i as int]);
            assert(b == bounds@[i as int]);
            assert(clauses_spec(bounds@.take(i + 1), settings.categories@) =~= pre_clauses + row);
            lemma_clauses_text_append(pre_clauses, row);
            assert(body@ =~= clauses_text(clauses_spec(bounds@.take(i + 1), settings.categories@)));
        }
        i = i + 1;
    }
    proof {
        assert(bounds@.take(bounds@.len() as int) =~= bounds@);
        lemma_clauses_count(bounds@, settings.categories@);
    }
    if bounds.is_empty() || filters.is_empty() {
        proof {
            assert(bounds@.len() * pairs.len() == 0) by (nonlinear_arith)
                requires
                    bounds@.len() == 0 || pairs.len() == 0,
            ;
        }
        None
    } else {
        proof {
            assert(bounds@.len() * pairs.len() > 0) by (nonlinear_arith)
                requires
                    bounds@.len() > 0 && pairs.len() > 0,
            ;
        }
        let mut doc = "[out:json];(".to_owned();
        doc.append(body.as_str());
        doc.append(");(._;>;);out body geom;");
        proof {
            assert(doc@ =~= doc_spec(clauses_spec(bounds@, settings.categories@)));
        }
        Some(doc)
    }
}

/// Concatenated clause text splits over list concatenation.
proof fn lemma_clauses_text_append(
    a: Seq<(Seq<char>, Option<Seq<char>>, GeoRect)>,
    b: Seq<(Seq<char>, Option<Seq<char>>, GeoRect)>,
)
    ensures
        clauses_text(a + b) == clauses_text(a) + clauses_text(b),
    decreases b.len(),
{
    if b.len() == 0 {
        assert(a + b =~= a);
        assert(clauses_text(a) + clauses_text(b) =~= clauses_text(a));
    } else {
        assert((a + b).drop_last() =~= a + b.drop_last());
        lemma_clauses_text_append(a, b.drop_last());
        assert((a + b).last() == b.last());
        assert(clauses_text(a) + (clauses_text(b.drop_last()) + clause_text(
            b.last().0,
            b.last().1,
            b.last().2,
        )) =~= (clauses_text(a) + clauses_text(b.drop_last())) + clause_text(
            b.last().0,
            b.last().1,
            b.last().2,
        ));
    }
}

/// There is one clause per bound and enabled filter.
proof fn lemma_clauses_count(bounds: Seq<GeoRect>, cats: Seq<Category>)
    ensures
        clauses_spec(bounds, cats).len() == bounds.len() * enabled_pairs(cats).len(),
    decreases bounds.len(),
{
    if bounds.len() > 0 {
        lemma_clauses_count(bounds.drop_last(), cats);
        assert((bounds.len() - 1) * enabled_pairs(cats).len() + enabled_pairs(cats).len()
            == bounds.len() * enabled_pairs(cats).len()) by (nonlinear_arith);
    }
}

} // verus!
