//! The boundary to the external parser.
//!
//! Source text goes out; a serialized syntax tree comes back, together with
//! the byte offset the parser assigned to the first byte of the file, or the
//! parser's error message.  Everything the engine then does with the tree is
//! verified.

use vstd::prelude::*;

use swc_common::FileName;
use swc_common::SourceMap;
use swc_common::input::SourceFileInput;
use swc_common::sync::Lrc;
use swc_ecma_parser::EsSyntax;
use swc_ecma_parser::Parser;
use swc_ecma_parser::Syntax;
use swc_ecma_parser::TsSyntax;
use swc_ecma_parser::lexer::Lexer;

verus! {

/// What parsing and serializing the source under a dialect yields: the
/// serialized tree and the first byte's offset, or the parser's message.
/// The external parser and serializer are deterministic, so this is a
/// function of the arguments alone.
pub uninterp spec fn parse_result_of(src: Seq<char>, typescript: bool, jsx: bool) -> Result<
    (Seq<char>, u32),
    Seq<char>,
>;

/// Relies on swc_ecma_parser's `parse_module` and serde_json's `to_string`:
/// parses the source as a module under the given dialect and serializes the
/// tree to JSON; both depend on the arguments alone.  `Err` carries the
/// parser's message.
#[verifier::external_body]
pub fn parse_source_json(source: &str, typescript: bool, jsx: bool) -> (r: Result<
    (String, u32),
    String,
>)
    ensures
        match r {
            Ok((json, base)) => parse_result_of(source@, typescript, jsx) == Ok::<_, Seq<char>>(
                (json@, base),
            ),
            Err(e) => parse_result_of(source@, typescript, jsx) == Err::<(Seq<char>, u32), _>(e@),
        },
{
    let cm: Lrc<SourceMap> = Default::default();
    let fm = cm.new_source_file(Lrc::new(FileName::Custom("input".into())), source.to_string());
    let syntax = if typescript { Syntax::Typescript(TsSyntax { tsx: jsx, ..Default::default() }) } else { Syntax::Es(EsSyntax { jsx, ..Default::default() }) };
    let mut parser = Parser::new_from(Lexer::new(syntax, Default::default(), SourceFileInput::from(&*fm), None));
    match parser.parse_module() {
        Ok(module) => match serde_json::to_string(&module) {
            Ok(json) => Ok((json, fm.start_pos.0)),
            Err(e) => Err(e.to_string()),
        },
        Err(e) => Err(format!("parse error: {:?}", e.into_kind().msg())),
    }
}

/// The parser dialect for a language tag: whether TypeScript, and whether
/// JSX is enabled.  Unknown tags parse as JavaScript with JSX.
pub open spec fn spec_dialect_flags(lang: Seq<char>) -> (bool, bool) {
    if lang == "tsx"@ {
        (true, true)
    } else if lang == "typescript"@ {
        (true, false)
    } else if lang == "jsx"@ {
        (false, true)
    } else {
        (false, true)
    }
}

pub fn dialect_flags(lang: &String) -> (r: (bool, bool))
    ensures
        r == spec_dialect_flags(lang@),
{
    let tsx = String::from_str("tsx");
    let ts = String::from_str("typescript");
    if *lang == tsx {
        (true, true)
    } else if *lang == ts {
        (true, false)
    } else {
        (false, true)
    }
}

/// A failure to parse the source under the requested dialect: the only
/// fatal error source analysis raises.
#[derive(Debug)]
pub struct ParseError {
    pub message: String,
}

} // verus!
