//! The requests sent to the catalogue: the path and query of a single-card
//! lookup, and the JSON body of a collection request.

use vstd::prelude::*;
use vstd::arithmetic::power::pow;
use vstd::string::StringExecFns;
use crate::api::CardLookup;
use crate::identifier::CollectionCardIdentifier;

verus! {

/// The lower-case hexadecimal digit of `d`, which is below 16.
pub open spec fn hex_digit(d: int) -> char {
    (if d < 10 { 48 + d } else { 87 + d }) as u32 as char
}

/// Hexadecimal digit `k` of `v`, counting from the most significant of 32.
pub open spec fn nibble(v: u128, k: int) -> int {
    ((v as int) / pow(16, (31 - k) as nat)) % 16
}

/// Which of the 32 digits stands at position `p` of the hyphenated form.
pub open spec fn digit_at(p: int) -> int {
    if p < 8 {
        p
    } else if p < 13 {
        p - 1
    } else if p < 18 {
        p - 2
    } else if p < 23 {
        p - 3
    } else {
        p - 4
    }
}

/// A UUID written as 32 lower-case hexadecimal digits, most significant
/// first, in groups of 8, 4, 4, 4 and 12 joined by hyphens.
pub open spec fn uuid_text(v: u128) -> Seq<char> {
    Seq::new(
        36,
        |p: int|
            if p == 8 || p == 13 || p == 18 || p == 23 {
                '-'
            } else {
                hex_digit(nibble(v, digit_at(p)))
            },
    )
}

/// Relies on uuid::Uuid::from_u128 (the value's bytes, most significant
/// first) and on the Display of its hyphenated form (lower-case hexadecimal
/// digits in groups of 8, 4, 4, 4 and 12).
#[verifier::external_body]
fn hyphenated(v: u128) -> (r: String)
    ensures
        r@ == uuid_text(v),
{
    uuid::Uuid::from_u128(v).hyphenated().to_string()
}

/// The decimal digits of `n`, without leading zeros.
pub open spec fn decimal(n: nat) -> Seq<char>
    decreases n,
{
    if n < 10 {
        seq![hex_digit(n as int)]
    } else {
        decimal(n / 10) + seq![hex_digit((n % 10) as int)]
    }
}

/// The text of a single decimal digit.
fn digit_text(d: usize) -> (r: &'static str)
    requires
        d < 10,
    ensures
        r@ == seq![hex_digit(d as int)],
{
    proof {
        reveal_strlit("0");
        reveal_strlit("1");
        reveal_strlit("2");
        reveal_strlit("3");
        reveal_strlit("4");
        reveal_strlit("5");
        reveal_strlit("6");
        reveal_strlit("7");
        reveal_strlit("8");
        reveal_strlit("9");
    }
    let r = if d == 0 {
        "0"
    } else if d == 1 {
        "1"
    } else if d == 2 {
        "2"
    } else if d == 3 {
        "3"
    } else if d == 4 {
        "4"
    } else if d == 5 {
        "5"
    } else if d == 6 {
        "6"
    } else if d == 7 {
        "7"
    } else if d == 8 {
        "8"
    } else {
        "9"
    };
    assert(r@ =~= seq![hex_digit(d as int)]);
    r
}

/// Appends the decimal digits of `n`.
fn append_decimal(out: &mut String, n: usize)
    ensures
        final(out)@ == old(out)@ + decimal(n as nat),
    decreases n,
{
    if n >= 10 {
        append_decimal(out, n / 10);
    }
    out.append(digit_text(n % 10));
    assert(final(out)@ =~= old(out)@ + decimal(n as nat));
}

/// How serde_json writes a character inside a string: quote, backslash and
/// control characters escaped, anything else as it is.
pub open spec fn json_escape(c: char) -> Seq<char> {
    let u = c as u32;
    if c == '"' {
        seq!['\\', '"']
    } else if c == '\\' {
        seq!['\\', '\\']
    } else if u == 8 {
        seq!['\\', 'b']
    } else if u == 9 {
        seq!['\\', 't']
    } else if u == 10 {
        seq!['\\', 'n']
    } else if u == 12 {
        seq!['\\', 'f']
    } else if u == 13 {
        seq!['\\', 'r']
    } else if u < 32 {
        seq!['\\', 'u', '0', '0', hex_digit(u as int / 16), hex_digit(u as int % 16)]
    } else {
        seq![c]
    }
}

/// `s` as a JSON string literal.
pub open spec fn json_quoted(s: Seq<char>) -> Seq<char> {
    seq!['"'] + s.map_values(|c: char| json_escape(c)).flatten() + seq!['"']
}

/// Relies on serde_json::to_string on a string: it writes into a byte
/// vector, which cannot fail, the JSON string literal that `json_escape`
/// spells character by character.
#[verifier::external_body]
fn json_string(s: &str) -> (r: Option<String>)
    ensures
        r is Some,
        r matches Some(t) ==> t@ == json_quoted(s@),
{
    serde_json::to_string(s).ok()
}

/// A request for one card: a path under the catalogue's address, and query
/// parameters.
#[derive(Debug)]
pub struct CardRequest {
    pub path: String,
    pub query: Vec<(String, String)>,
}

pub open spec fn pairs_of(q: Seq<(String, String)>) -> Seq<(Seq<char>, Seq<char>)> {
    q.map_values(|p: (String, String)| (p.0@, p.1@))
}

/// The path and query of each kind of lookup.
pub open spec fn spec_request(lookup: CardLookup) -> (Seq<char>, Seq<(Seq<char>, Seq<char>)>) {
    match lookup {
        CardLookup::Id(id) => ("cards/"@ + uuid_text(id), Seq::empty()),
        CardLookup::MtgoId(id) => ("cards/mtgo/"@ + decimal(id as nat), Seq::empty()),
        CardLookup::MultiverseId(id) => ("cards/multiverse/"@ + decimal(id as nat), Seq::empty()),
        CardLookup::Named { fuzzy, set } => (
            "cards/named"@,
            match set {
                Some(s) => seq![("fuzzy"@, fuzzy@), ("set"@, s@)],
                None => seq![("fuzzy"@, fuzzy@)],
            },
        ),
        CardLookup::CollectorNumber { set, collector_number } => (
            "cards/"@ + set@ + "/"@ + collector_number@,
            Seq::empty(),
        ),
    }
}

fn text_of(s: &str) -> (r: String)
    ensures
        r@ == s@,
{
    let mut t = String::new();
    t.append(s);
    t
}

/// The path and query that ask for the card of `lookup`.
pub fn request_for(lookup: &CardLookup) -> (r: CardRequest)
    ensures
        (r.path@, pairs_of(r.query@)) == spec_request(*lookup),
{
    let mut path = text_of("cards/");
    let mut query: Vec<(String, String)> = Vec::new();
    match lookup {
        CardLookup::Id(id) => {
            path.append(hyphenated(*id).as_str());
        },
        CardLookup::MtgoId(id) => {
            path.append("mtgo/");
            append_decimal(&mut path, *id);
        },
        CardLookup::MultiverseId(id) => {
            path.append("multiverse/");
            append_decimal(&mut path, *id);
        },
        CardLookup::Named { fuzzy, set } => {
            path.append("named");
            query.push((text_of("fuzzy"), fuzzy.clone()));
            if let Some(s) = set {
                query.push((text_of("set"), s.clone()));
            }
        },
        CardLookup::CollectorNumber { set, collector_number } => {
            path.append(set.as_str());
            path.append("/");
            path.append(collector_number.as_str());
        },
    }
    proof {
        reveal_strlit("cards/");
        reveal_strlit("mtgo/");
        reveal_strlit("multiverse/");
        reveal_strlit("named");
        reveal_strlit("cards/mtgo/");
        reveal_strlit("cards/multiverse/");
        reveal_strlit("cards/named");
        reveal_strlit("/");
        assert(path@ =~= spec_request(*lookup).0);
        assert(pairs_of(query@) =~= spec_request(*lookup).1);
    }
    CardRequest { path, query }
}

} // verus!

verus! {

/// The JSON object that names one identifier in a collection request.
pub open spec fn identifier_json(ident: CollectionCardIdentifier) -> Seq<char> {
    match ident {
        CollectionCardIdentifier::Id { id } => "{\"id\":\""@ + uuid_text(id) + "\"}"@,
        CollectionCardIdentifier::MtgoId { mtgo_id } => "{\"mtgo_id\":"@ + decimal(mtgo_id as nat) + "}"@,
        CollectionCardIdentifier::MultiverseId { multiverse_id } => "{\"multiverse_id\":"@ + decimal(
            multiverse_id as nat,
        ) + "}"@,
        CollectionCardIdentifier::OracleId { oracle_id } => "{\"oracle_id\":\""@ + uuid_text(oracle_id) + "\"}"@,
        CollectionCardIdentifier::IllustrationId { illustration_id } => "{\"illustration_id\":\""@ + uuid_text(
            illustration_id,
        ) + "\"}"@,
        CollectionCardIdentifier::Name { name } => "{\"name\":"@ + json_quoted(name@) + "}"@,
        CollectionCardIdentifier::NameSet { name, set } => "{\"set\":"@ + json_quoted(set@) + ",\"name\":"@
            + json_quoted(name@) + "}"@,
        CollectionCardIdentifier::CollectorNumberSet { collector_number, set } => "{\"set\":"@ + json_quoted(set@)
            + ",\"collector_number\":"@ + json_quoted(collector_number@) + "}"@,
    }
}

/// The items joined by commas.
pub open spec fn comma_joined(items: Seq<Seq<char>>) -> Seq<char>
    decreases items.len(),
{
    if items.len() == 0 {
        Seq::empty()
    } else if items.len() == 1 {
        items[0]
    } else {
        comma_joined(items.drop_last()) + ","@ + items.last()
    }
}

/// The body of a collection request for `ids`.
pub open spec fn spec_collection_body(ids: Seq<CollectionCardIdentifier>) -> Seq<char> {
    "{\"identifiers\":["@ + comma_joined(ids.map_values(|i: CollectionCardIdentifier| identifier_json(i))) + "]}"@
}

fn quoted_into(out: &mut String, s: &String)
    ensures
        final(out)@ == old(out)@ + json_quoted(s@),
{
    let q = json_string(s.as_str()).unwrap();
    out.append(q.as_str());
}

/// Appends the JSON object of `ident`.
fn identifier_into(out: &mut String, ident: &CollectionCardIdentifier)
    ensures
        final(out)@ == old(out)@ + identifier_json(*ident),
{
    let ghost start = out@;
    proof {
        reveal_strlit("{\"id\":\"");
        reveal_strlit("\"}");
        reveal_strlit("{\"mtgo_id\":");
        reveal_strlit("}");
        reveal_strlit("{\"multiverse_id\":");
        reveal_strlit("{\"oracle_id\":\"");
        reveal_strlit("{\"illustration_id\":\"");
        reveal_strlit("{\"name\":");
        reveal_strlit("{\"set\":");
        reveal_strlit(",\"name\":");
        reveal_strlit(",\"collector_number\":");
    }
    match ident {
        CollectionCardIdentifier::Id { id } => {
            out.append("{\"id\":\"");
            out.append(hyphenated(*id).as_str());
            out.append("\"}");
        },
        CollectionCardIdentifier::MtgoId { mtgo_id } => {
            out.append("{\"mtgo_id\":");
            append_decimal(out, *mtgo_id);
            out.append("}");
        },
        CollectionCardIdentifier::MultiverseId { multiverse_id } => {
            out.append("{\"multiverse_id\":");
            append_decimal(out, *multiverse_id);
            out.append("}");
        },
        CollectionCardIdentifier::OracleId { oracle_id } => {
            out.append("{\"oracle_id\":\"");
            out.append(hyphenated(*oracle_id).as_str());
            out.append("\"}");
        },
        CollectionCardIdentifier::IllustrationId { illustration_id } => {
            out.append("{\"illustration_id\":\"");
            out.append(hyphenated(*illustration_id).as_str());
            out.append("\"}");
        },
        CollectionCardIdentifier::Name { name } => {
            out.append("{\"name\":");
            quoted_into(out, name);
            out.append("}");
        },
        CollectionCardIdentifier::NameSet { name, set } => {
            out.append("{\"set\":");
            quoted_into(out, set);
            out.append(",\"name\":");
            quoted_into(out, name);
            out.append("}");
        },
        CollectionCardIdentifier::CollectorNumberSet { collector_number, set } => {
            out.append("{\"set\":");
            quoted_into(out, set);
            out.append(",\"collector_number\":");
            quoted_into(out, collector_number);
            out.append("}");
        },
    }
    assert(out@ =~= start + identifier_json(*ident));
}

/// The JSON body of a collection request for `ids`: every identifier, in
/// order.
pub fn collection_body(ids: &Vec<CollectionCardIdentifier>) -> (r: String)
    ensures
        r@ == spec_collection_body(ids@),
{
    proof {
        reveal_strlit("{\"identifiers\":[");
        reveal_strlit(",");
        reveal_strlit("]}");
    }
    let ghost items = ids@.map_values(|i: CollectionCardIdentifier| identifier_json(i));
    let mut out = text_of("{\"identifiers\":[");
    let mut k: usize = 0;
    while k < ids.len()
        invariant
            k <= ids@.len(),
            items == ids@.map_values(|i: CollectionCardIdentifier| identifier_json(i)),
            out@ == "{\"identifiers\":["@ + comma_joined(items.take(k as int)),
        decreases ids@.len() - k,
    {
        let ghost before = out@;
        if k > 0 {
            out.append(",");
        }
        identifier_into(&mut out, &ids[k]);
        proof {
            let t = items.take(k + 1);
            assert(t.drop_last() =~= items.take(k as int));
            assert(t.last() == identifier_json(ids@[k as int]));
            if k == 0 {
                assert(t.len() == 1);
            }
            assert(out@ =~= "{\"identifiers\":["@ + comma_joined(t));
        }
        k = k + 1;
    }
    out.append("]}");
    assert(items.take(k as int) =~= items);
    out
}

} // verus!

verus! {

/// How an identifier reads in messages: its kind, then its values in
/// parentheses.
pub open spec fn identifier_text(ident: CollectionCardIdentifier) -> Seq<char> {
    match ident {
        CollectionCardIdentifier::Id { id } => "Id("@ + uuid_text(id) + ")"@,
        CollectionCardIdentifier::MtgoId { mtgo_id } => "MtgoId("@ + decimal(mtgo_id as nat) + ")"@,
        CollectionCardIdentifier::MultiverseId { multiverse_id } => "MultiverseId("@ + decimal(multiverse_id as nat)
            + ")"@,
        CollectionCardIdentifier::OracleId { oracle_id } => "OracleId("@ + uuid_text(oracle_id) + ")"@,
        CollectionCardIdentifier::IllustrationId { illustration_id } => "IllustrationId("@ + uuid_text(illustration_id)
            + ")"@,
        CollectionCardIdentifier::Name { name } => "Name("@ + name@ + ")"@,
        CollectionCardIdentifier::NameSet { name, set } => "NameSet("@ + name@ + ", "@ + set@ + ")"@,
        CollectionCardIdentifier::CollectorNumberSet { collector_number, set } => "CollectorNumberSet("@
            + collector_number@ + ", "@ + set@ + ")"@,
    }
}

impl CollectionCardIdentifier {
    /// The identifier as it reads in messages.
    pub fn describe(&self) -> (r: String)
        ensures
            r@ == identifier_text(*self),
    {
        let mut out = String::new();
        match self {
            CollectionCardIdentifier::Id { id } => {
                out.append("Id(");
                out.append(hyphenated(*id).as_str());
            },
            CollectionCardIdentifier::MtgoId { mtgo_id } => {
                out.append("MtgoId(");
                append_decimal(&mut out, *mtgo_id);
            },
            CollectionCardIdentifier::MultiverseId { multiverse_id } => {
                out.append("MultiverseId(");
                append_decimal(&mut out, *multiverse_id);
            },
            CollectionCardIdentifier::OracleId { oracle_id } => {
                out.append("OracleId(");
                out.append(hyphenated(*oracle_id).as_str());
            },
            CollectionCardIdentifier::IllustrationId { illustration_id } => {
                out.append("IllustrationId(");
                out.append(hyphenated(*illustration_id).as_str());
            },
            CollectionCardIdentifier::Name { name } => {
                out.append("Name(");
                out.append(name.as_str());
            },
            CollectionCardIdentifier::NameSet { name, set } => {
                out.append("NameSet(");
                out.append(name.as_str());
                out.append(", ");
                out.append(set.as_str());
            },
            CollectionCardIdentifier::CollectorNumberSet { collector_number, set } => {
                out.append("CollectorNumberSet(");
                out.append(collector_number.as_str());
                out.append(", ");
                out.append(set.as_str());
            },
        }
        out.append(")");
        proof {
            reveal_strlit("Id(");
            reveal_strlit("MtgoId(");
            reveal_strlit("MultiverseId(");
            reveal_strlit("OracleId(");
            reveal_strlit("IllustrationId(");
            reveal_strlit("Name(");
            reveal_strlit("NameSet(");
            reveal_strlit("CollectorNumberSet(");
            reveal_strlit(", ");
            reveal_strlit(")");
            assert(out@ =~= identifier_text(*self));
        }
        out
    }
}

} // verus!
