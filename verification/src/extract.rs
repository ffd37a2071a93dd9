//! The order in which PDF text extractors are tried: pdf-extract first, then
//! the ToUnicode-aware extractor, then Python's pdfplumber through `uv`,
//! `python` and `python3`. The first text that looks like a Chinese document
//! wins.
use vstd::prelude::*;
use vstd::string::StringExecFns;
use crate::cjk::{quality_ok, text_quality_ok};

verus! {

/// An extraction attempt.
#[derive(Debug, Clone, Copy, PartialEq, Eq)]
pub enum Extractor {
    /// `pdf_extract::extract_text`, with its panics caught.
    PdfExtract,
    /// The lopdf-based extractor with ToUnicode CMap decoding.
    Lopdf,
    /// `uv run --with pdfplumber python -c ..`.
    UvPython,
    /// `python -c ..`.
    Python,
    /// `python3 -c ..`.
    Python3,
}

/// What to do next: run an extractor, or finish with a result.
#[derive(Debug)]
pub enum ExtractAction {
    Run(Extractor),
    Finish(Result<String, String>),
}

/// The error when every extractor fails.
pub open spec fn all_extractors_failed() -> Seq<char> {
    "PDF文本提取失败：所有方法均无法解码该PDF（CID字体）。\n建议：pip install pdfplumber 后重试。"@
}

/// The extractor tried after `e`, if any.
pub open spec fn next_extractor(e: Extractor) -> Option<Extractor> {
    match e {
        Extractor::PdfExtract => Some(Extractor::Lopdf),
        Extractor::Lopdf => Some(Extractor::UvPython),
        Extractor::UvPython => Some(Extractor::Python),
        Extractor::Python => Some(Extractor::Python3),
        Extractor::Python3 => None,
    }
}

/// The first action: run pdf-extract.
pub fn first_extraction_action() -> (r: ExtractAction)
    ensures
        r == ExtractAction::Run(Extractor::PdfExtract),
{
    ExtractAction::Run(Extractor::PdfExtract)
}

/// The action after extractor `ran` produced `outcome` (`None` where it
/// failed, panicked or its process did not succeed): accept text that passes
/// the quality test, else run the next extractor, else fail.
pub fn next_extraction_action(ran: Extractor, outcome: Option<String>) -> (r: ExtractAction)
    ensures
        match outcome {
            Some(t) if quality_ok(t@) => r == ExtractAction::Finish(Ok(t)),
            _ => match next_extractor(ran) {
                Some(e) => r == ExtractAction::Run(e),
                None => r matches ExtractAction::Finish(Err(msg)) && msg@ == all_extractors_failed(),
            },
        },
        r matches ExtractAction::Finish(Ok(t)) ==> quality_ok(t@),
{
    match outcome {
        Some(t) => {
            if text_quality_ok(t.as_str()) {
                return ExtractAction::Finish(Ok(t));
            }
        },
        None => {},
    }
    match ran {
        Extractor::PdfExtract => ExtractAction::Run(Extractor::Lopdf),
        Extractor::Lopdf => ExtractAction::Run(Extractor::UvPython),
        Extractor::UvPython => ExtractAction::Run(Extractor::Python),
        Extractor::Python => ExtractAction::Run(Extractor::Python3),
        Extractor::Python3 => ExtractAction::Finish(
            Err(
                String::from_str(
                    "PDF文本提取失败：所有方法均无法解码该PDF（CID字体）。\n建议：pip install pdfplumber 后重试。",
                ),
            ),
        ),
    }
}

} // verus!
