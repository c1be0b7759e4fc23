//! Reading the header of a schematic: format version, generator, uuid, paper size,
//! title block and whether fonts are embedded. A setting given twice takes its last
//! value, as the file is read item by item.
use vstd::prelude::*;
use crate::schematic::{SchematicError, TitleBlock};
use crate::schematic_read_back::args_v;
use crate::schematic_write::{PaperSize, CURRENT_VERSION, GENERATOR_VERSION};
use crate::sexpr::{views, Decimal, SExpr, SExprView};
use crate::sexpr_write::kicad_text;
use crate::symbol_library::{
    args_exec, last_args, last_args_exec, last_version, lemma_views_len, num_at, num_at_exec, opt_string_view, str_at,
    str_at_exec, sym_at, sym_at_exec, text_field, text_field_exec, version_of, version_of_exec,
};
use crate::text::str_eq;

verus! {

/// What a schematic's header holds.
#[derive(Debug, Clone)]
pub struct SchematicHeader {
    pub version: u32,
    pub generator: Option<String>,
    pub generator_version: Option<String>,
    pub uuid: String,
    pub paper: PaperSize,
    pub title_block: Option<TitleBlock>,
    pub embedded_fonts: bool,
}

impl PaperSize {
    /// The paper size named; any other name is A4.
    pub open spec fn from_keyword(s: Seq<char>) -> PaperSize {
        if s == "A3"@ {
            PaperSize::A3
        } else if s == "A2"@ {
            PaperSize::A2
        } else if s == "A1"@ {
            PaperSize::A1
        } else if s == "A0"@ {
            PaperSize::A0
        } else if s == "A"@ {
            PaperSize::A
        } else if s == "B"@ {
            PaperSize::B
        } else if s == "C"@ {
            PaperSize::C
        } else if s == "D"@ {
            PaperSize::D
        } else if s == "E"@ {
            PaperSize::E
        } else if s == "USLetter"@ {
            PaperSize::USLetter
        } else if s == "USLegal"@ {
            PaperSize::USLegal
        } else if s == "USLedger"@ {
            PaperSize::USLedger
        } else {
            PaperSize::A4
        }
    }

    pub fn from_str(s: &str) -> (r: Self)
        ensures
            r == Self::from_keyword(s@),
    {
        if str_eq(s, "A3") {
            PaperSize::A3
        } else if str_eq(s, "A2") {
            PaperSize::A2
        } else if str_eq(s, "A1") {
            PaperSize::A1
        } else if str_eq(s, "A0") {
            PaperSize::A0
        } else if str_eq(s, "A") {
            PaperSize::A
        } else if str_eq(s, "B") {
            PaperSize::B
        } else if str_eq(s, "C") {
            PaperSize::C
        } else if str_eq(s, "D") {
            PaperSize::D
        } else if str_eq(s, "E") {
            PaperSize::E
        } else if str_eq(s, "USLetter") {
            PaperSize::USLetter
        } else if str_eq(s, "USLegal") {
            PaperSize::USLegal
        } else if str_eq(s, "USLedger") {
            PaperSize::USLedger
        } else {
            PaperSize::A4
        }
    }
}

/// The quoted text of the last paper item that has one.
pub open spec fn last_paper(xs: Seq<SExprView>) -> Option<Seq<char>>
    decreases xs.len(),
{
    if xs.len() == 0 {
        None
    } else if args_v(xs.last(), "paper"@) is Some && str_at(args_v(xs.last(), "paper"@)->Some_0, 0) is Some {
        str_at(args_v(xs.last(), "paper"@)->Some_0, 0)
    } else {
        last_paper(xs.drop_last())
    }
}

/// A comment's number as a byte: its fraction dropped, held to `0..=255`.
pub open spec fn comment_index(d: Decimal) -> u8 {
    if version_of(d) > 255 {
        255
    } else {
        version_of(d) as u8
    }
}

/// The numbered comments of a title block, in order: each `comment` item with a number
/// and a quoted text.
pub open spec fn comments_of(xs: Seq<SExprView>) -> Seq<(u8, Seq<char>)>
    decreases xs.len(),
{
    if xs.len() == 0 {
        Seq::empty()
    } else {
        comments_of(xs.drop_last()) + match args_v(xs.last(), "comment"@) {
            Some(c) => if num_at(c, 0) is Some && str_at(c, 1) is Some {
                seq![(comment_index(num_at(c, 0)->Some_0), str_at(c, 1)->Some_0)]
            } else {
                Seq::empty()
            },
            None => Seq::empty(),
        }
    }
}

pub open spec fn title_block_matches(t: TitleBlock, a: Seq<SExprView>) -> bool {
    &&& opt_string_view(t.title) == text_field(a, "title"@)
    &&& opt_string_view(t.date) == text_field(a, "date"@)
    &&& opt_string_view(t.rev) == text_field(a, "rev"@)
    &&& opt_string_view(t.company) == text_field(a, "company"@)
    &&& t.comments@.map_values(|c: (u8, String)| (c.0, c.1@)) == comments_of(a)
}

/// A schematic's header as read from the arguments of its `kicad_sch` list; where the
/// file has no such item, the values of a new schematic (`fresh_uuid` for its uuid).
pub open spec fn header_matches(h: SchematicHeader, a: Seq<SExprView>, fresh_uuid: Seq<char>) -> bool {
    &&& h.version == match last_version(a) {
        Some(d) => version_of(d),
        None => CURRENT_VERSION,
    }
    &&& opt_string_view(h.generator) == match last_args(a, "generator"@) {
        Some(g) => str_at(g, 0),
        None => Some("kicaddy"@),
    }
    &&& opt_string_view(h.generator_version) == match last_args(a, "generator_version"@) {
        Some(g) => str_at(g, 0),
        None => Some(GENERATOR_VERSION@),
    }
    &&& h.uuid@ == match last_args(a, "uuid"@) {
        Some(u) => match (str_at(u, 0), sym_at(u, 0)) {
            (Some(s), _) => s,
            (None, Some(s)) => s,
            _ => Seq::<char>::empty(),
        },
        None => fresh_uuid,
    }
    &&& h.paper == match last_paper(a) {
        Some(p) => PaperSize::from_keyword(p),
        None => PaperSize::A4,
    }
    &&& match last_args(a, "title_block"@) {
        Some(t) => h.title_block matches Some(tb) && title_block_matches(tb, t),
        None => h.title_block is None,
    }
    &&& h.embedded_fonts == match last_args(a, "embedded_fonts"@) {
        Some(x) => sym_at(x, 0) == Some("yes"@),
        None => false,
    }
}

fn comment_index_exec(d: Decimal) -> (r: u8)
    ensures
        r == comment_index(d),
{
    let v = version_of_exec(d);
    if v > 255 {
        255
    } else {
        v as u8
    }
}

fn title_block_exec(a: &[SExpr]) -> (r: TitleBlock)
    ensures
        title_block_matches(r, views(a@)),
{
    let ghost v = views(a@);
    proof {
        lemma_views_len(a@);
    }
    let mut comments: Vec<(u8, String)> = Vec::new();
    let mut k: usize = 0;
    while k < a.len()
        invariant
            k <= a@.len(),
            v == views(a@),
            v.len() == a@.len(),
            comments@.map_values(|c: (u8, String)| (c.0, c.1@)) == comments_of(v.take(k as int)),
        decreases a@.len() - k,
    {
        assert(v.take(k + 1).drop_last() =~= v.take(k as int));
        assert(v.take(k + 1).last() == a@[k as int]@);
        let ghost before = comments@;
        match args_exec(&a[k], "comment") {
            Some(c) => {
                match (num_at_exec(c, 0), str_at_exec(c, 1)) {
                    (Some(d), Some(t)) => {
                        let i = comment_index_exec(d);
                        comments.push((i, t));
                        assert(comments@.map_values(|c: (u8, String)| (c.0, c.1@)) =~= before.map_values(
                            |c: (u8, String)| (c.0, c.1@),
                        ).push((i, comments@.last().1@)));
                    },
                    _ => {},
                }
            },
            None => {},
        }
        k = k + 1;
    }
    assert(v.take(a@.len() as int) =~= v);
    TitleBlock {
        title: text_field_exec(a, "title"),
        date: text_field_exec(a, "date"),
        rev: text_field_exec(a, "rev"),
        company: text_field_exec(a, "company"),
        comments,
    }
}

fn last_paper_exec(a: &[SExpr]) -> (r: Option<String>)
    ensures
        opt_string_view(r) == last_paper(views(a@)),
{
    let ghost v = views(a@);
    proof {
        lemma_views_len(a@);
    }
    let mut k: usize = a.len();
    assert(v.take(k as int) =~= v);
    while k > 0
        invariant
            k <= a@.len(),
            v == views(a@),
            v.len() == a@.len(),
            last_paper(v) == last_paper(v.take(k as int)),
        decreases k,
    {
        let ghost t = v.take(k as int);
        assert(t.drop_last() =~= v.take(k - 1));
        assert(t.last() == a@[k - 1]@);
        match args_exec(&a[k - 1], "paper") {
            Some(p) => match str_at_exec(p, 0) {
                Some(s) => {
                    return Some(s);
                },
                None => {},
            },
            None => {},
        }
        k = k - 1;
    }
    None
}

fn last_version_exec(a: &[SExpr]) -> (r: Option<Decimal>)
    ensures
        r == last_version(views(a@)),
{
    let ghost v = views(a@);
    proof {
        lemma_views_len(a@);
    }
    let mut k: usize = a.len();
    assert(v.take(k as int) =~= v);
    while k > 0
        invariant
            k <= a@.len(),
            v == views(a@),
            v.len() == a@.len(),
            last_version(v) == last_version(v.take(k as int)),
        decreases k,
    {
        let ghost t = v.take(k as int);
        assert(t.drop_last() =~= v.take(k - 1));
        assert(t.last() == a@[k - 1]@);
        match args_exec(&a[k - 1], "version") {
            Some(p) => match num_at_exec(p, 0) {
                Some(d) => {
                    return Some(d);
                },
                None => {},
            },
            None => {},
        }
        k = k - 1;
    }
    None
}

/// Read a schematic's header, as `header_matches` states; anything but a `kicad_sch`
/// list is refused.
pub fn schematic_header(e: &SExpr, fresh_uuid: String) -> (r: Result<SchematicHeader, SchematicError>)
    ensures
        match args_v(e@, "kicad_sch"@) {
            Some(a) => r matches Ok(h) && header_matches(h, a, fresh_uuid@),
            None => r matches Err(SchematicError::InvalidFormat { expected, got }) && expected@ == "kicad_sch"@ && got@
                == kicad_text(e@, 0),
        },
{
    let a = match args_exec(e, "kicad_sch") {
        Some(a) => a,
        None => {
            return Err(
                SchematicError::InvalidFormat { expected: String::from_str("kicad_sch"), got: e.to_kicad_string() },
            );
        },
    };
    assert(views(a@).skip(0) =~= views(a@));
    let version = match last_version_exec(a) {
        Some(d) => version_of_exec(d),
        None => CURRENT_VERSION,
    };
    let generator = match last_args_exec(a, 0, "generator") {
        Some(g) => str_at_exec(g, 0),
        None => Some(String::from_str("kicaddy")),
    };
    let generator_version = match last_args_exec(a, 0, "generator_version") {
        Some(g) => str_at_exec(g, 0),
        None => Some(String::from_str(GENERATOR_VERSION)),
    };
    let uuid = match last_args_exec(a, 0, "uuid") {
        Some(u) => match str_at_exec(u, 0) {
            Some(s) => s,
            None => match sym_at_exec(u, 0) {
                Some(s) => String::from_str(s),
                None => String::new(),
            },
        },
        None => fresh_uuid,
    };
    let paper = match last_paper_exec(a) {
        Some(p) => PaperSize::from_str(p.as_str()),
        None => PaperSize::A4,
    };
    let title_block = match last_args_exec(a, 0, "title_block") {
        Some(t) => Some(title_block_exec(t)),
        None => None,
    };
    let embedded_fonts = match last_args_exec(a, 0, "embedded_fonts") {
        Some(x) => match sym_at_exec(x, 0) {
            Some(s) => str_eq(s, "yes"),
            None => false,
        },
        None => false,
    };
    Ok(SchematicHeader { version, generator, generator_version, uuid, paper, title_block, embedded_fonts })
}

} // verus!
