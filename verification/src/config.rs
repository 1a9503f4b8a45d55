//! The parsed configuration consumed when the daemon is built: global display
//! settings and the ordered block definitions, together with the errors a bad
//! configuration produces. The YAML text itself is read by an external
//! parser behind a small trusted boundary; everything past that boundary
//! works on plain values.

use vstd::prelude::*;
use vstd::string::*;
use yaml_rust::{Yaml, YamlLoader};

verus! {

/// One block definition as the document gives it: each field is `None` where
/// the document does not provide it as a string.
pub struct BlockDef {
    pub name: Option<String>,
    pub cmd: Option<String>,
    pub prefix: Option<String>,
}

/// The mathematical value of a [`BlockDef`].
pub ghost struct BlockDefV {
    pub name: Option<Seq<char>>,
    pub cmd: Option<Seq<char>>,
    pub prefix: Option<Seq<char>>,
}

impl View for BlockDef {
    type V = BlockDefV;

    open spec fn view(&self) -> BlockDefV {
        BlockDefV {
            name: self.name.deep_view(),
            cmd: self.cmd.deep_view(),
            prefix: self.prefix.deep_view(),
        }
    }
}

impl DeepView for BlockDef {
    type V = BlockDefV;

    open spec fn deep_view(&self) -> BlockDefV {
        self.view()
    }
}

/// A whole configuration document: the global display settings, each `None`
/// where absent or not a string, and the block definitions in document
/// order, `None` where the document has no `blocks` hash.
pub struct ConfigDoc {
    pub delim: Option<String>,
    pub prefix: Option<String>,
    pub suffix: Option<String>,
    pub blocks: Option<Vec<BlockDef>>,
}

/// The mathematical value of a [`ConfigDoc`].
pub ghost struct ConfigDocV {
    pub delim: Option<Seq<char>>,
    pub prefix: Option<Seq<char>>,
    pub suffix: Option<Seq<char>>,
    pub blocks: Option<Seq<BlockDefV>>,
}

impl View for ConfigDoc {
    type V = ConfigDocV;

    open spec fn view(&self) -> ConfigDocV {
        ConfigDocV {
            delim: self.delim.deep_view(),
            prefix: self.prefix.deep_view(),
            suffix: self.suffix.deep_view(),
            blocks: self.blocks.deep_view(),
        }
    }
}

/// Why a configuration was rejected: the scanner's message, a block entry
/// missing a required field, or a document that is not the expected hash.
pub enum ParseError {
    Scan(String),
    MissingField { block: String, field: String },
    BadStruct,
}

/// The mathematical value of a [`ParseError`].
pub ghost enum ParseErrorV {
    Scan(Seq<char>),
    MissingField { block: Seq<char>, field: Seq<char> },
    BadStruct,
}

impl View for ParseError {
    type V = ParseErrorV;

    open spec fn view(&self) -> ParseErrorV {
        match self {
            ParseError::Scan(msg) => ParseErrorV::Scan(msg@),
            ParseError::MissingField { block, field } => ParseErrorV::MissingField {
                block: block@,
                field: field@,
            },
            ParseError::BadStruct => ParseErrorV::BadStruct,
        }
    }
}

/// The one-line report of a parse error, newline-terminated.
pub open spec fn error_report(e: ParseErrorV) -> Seq<char> {
    match e {
        ParseErrorV::Scan(msg) => "parse error: "@ + msg + "\n"@,
        ParseErrorV::MissingField { block, field } => "parse error: expected `"@ + field
            + "` field in ["@ + block + "]\n"@,
        ParseErrorV::BadStruct => "parse error: config is not a proper yaml hash\n"@,
    }
}

impl ParseError {
    /// Render this error as its one-line report.
    pub fn report(&self) -> (r: String)
        ensures
            r@ == error_report(self@),
    {
        let mut r = String::new();
        match self {
            ParseError::Scan(msg) => {
                r.append("parse error: ");
                r.append(msg.as_str());
                r.append("\n");
            },
            ParseError::MissingField { block, field } => {
                r.append("parse error: expected `");
                r.append(field.as_str());
                r.append("` field in [");
                r.append(block.as_str());
                r.append("]\n");
            },
            ParseError::BadStruct => {
                r.append("parse error: config is not a proper yaml hash\n");
            },
        }
        proof {
            assert(r@ =~= error_report(self@));
        }
        r
    }
}

/// The name of what parsing configuration text yields: the document model
/// read out of the text, or the scanner's message. The parse is a function
/// of the text alone, so the same text always yields the same model.
pub uninterp spec fn config_model_of(s: Seq<char>) -> Result<ConfigDocV, Seq<char>>;

/// Pairwise-distinct names among the definitions that carry one: what block
/// definitions read from a mapping satisfy, its keys being distinct.
pub open spec fn def_names_distinct(defs: Seq<BlockDefV>) -> bool {
    forall|i: int, j: int|
        0 <= i < j < defs.len() && (#[trigger] defs[i]).name is Some && (#[trigger] defs[j]).name
            is Some ==> defs[i].name != defs[j].name
}

/// Relies on yaml-rust: `YamlLoader::load_from_str` parses the text into
/// its documents (or a scan error, rendered here as its display text), and
/// `Yaml::as_str`, `Yaml::as_hash` and the `Index<&str>` impl read the
/// recognized shape out of the first document as plain values — a string
/// under each of `delim`, `prefix` and `suffix`, and under `blocks` a hash
/// of block name to `cmd`/`prefix` entry, in insertion order. A missing or
/// differently-typed node reads as `None`; text with no document at all
/// reads as a model without a `blocks` hash. The result depends on the
/// text alone and is named `config_model_of`; the block names are pairwise
/// distinct because a hash's keys are. The parser recurses on nested
/// block structure, so a pathologically deep document could exhaust the
/// stack; no contract here covers that.
#[verifier::external_body]
pub(crate) fn parse_config(text: &str) -> (r: Result<ConfigDoc, String>)
    ensures
        (match (r, config_model_of(text@)) {
            (Ok(doc), Ok(d)) => doc@ == d && (match d.blocks {
                Some(defs) => def_names_distinct(defs),
                None => true,
            }),
            (Err(m), Err(t)) => m@ == t,
            _ => false,
        }),
{
    let docs = match YamlLoader::load_from_str(text) {
        Ok(docs) => docs,
        Err(e) => return Err(e.to_string()),
    };
    let doc = docs.into_iter().next().unwrap_or(Yaml::BadValue);
    let get = |y: &Yaml| y.as_str().map(str::to_owned);
    let blocks = doc["blocks"].as_hash().map(|h| {
        h.iter().map(|(k, v)| BlockDef {
            name: get(k), cmd: get(&v["cmd"]), prefix: get(&v["prefix"]),
        }).collect()
    });
    let (delim, prefix, suffix) = (get(&doc["delim"]), get(&doc["prefix"]), get(&doc["suffix"]));
    Ok(ConfigDoc { delim, prefix, suffix, blocks })
}

} // verus!
