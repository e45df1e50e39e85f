//! The conversion orchestrator's verified half: per file it classifies,
//! normalizes, scaffolds, names the scratch and output files, and decides the
//! outcome from the external highlighter's report. The surrounding
//! application performs the reads, writes, and the subprocess call, feeding
//! plain values in and out.

use vstd::prelude::*;

use crate::config::Config;
use crate::language::{get_language_from_extension, language_for};
use crate::template::{escape_html, escaped_html, rendered, TemplateManager};

verus! {

/// Coordinates one conversion per file: read, normalize, scaffold, delegate,
/// collect, persist.
pub struct CodeToHTMLConverter {
    pub config: Config,
    code_block_template: String,
}

/// The end of one file conversion: the path of the persisted output, or an
/// explicit no-result marker when the external highlighter reported failure.
pub enum ConversionOutcome {
    Produced(String),
    NoResult,
}

impl CodeToHTMLConverter {
    /// The HTML template this converter renders scaffolds with.
    pub closed spec fn template_view(&self) -> Seq<char> {
        self.code_block_template@
    }

    /// The configuration this converter runs under.
    pub closed spec fn spec_config(&self) -> Config {
        self.config
    }

    /// A converter over a configuration and a loaded template. The
    /// surrounding application reads the template file and creates the
    /// output and cache directories before any conversion runs.
    pub fn new(config: Config, code_block_template: String) -> (r: Self)
        ensures
            r.spec_config() == config,
            r.template_view() == code_block_template@,
    {
        CodeToHTMLConverter { config, code_block_template }
    }

    /// The pre-highlight scaffold for one file: the code escaped and
    /// substituted into the template along with the file name, its language
    /// tag, and the configured theme.
    pub fn create_code_block_html(&self, filename: &str, code: &str) -> (r: String)
        ensures
            r@ == rendered(
                self.template_view(),
                filename@,
                language_for(filename@),
                self.spec_config().theme@,
                escaped_html(code@),
            ),
    {
        let language = get_language_from_extension(filename);
        let escaped_code = escape_html(code);
        TemplateManager::render_code_block(
            self.code_block_template.as_str(),
            filename,
            language,
            self.config.theme.as_str(),
            escaped_code.as_str(),
        )
    }

    /// The name of the scaffold file inside the scratch workspace, and of the
    /// persisted output file: the source file's stem with an `html` extension.
    pub fn scaffold_file_name(stem: &str) -> (r: String)
        ensures
            r@ == stem@ + ".html"@,
    {
        let mut s = stem.to_owned();
        s.append(".html");
        s
    }

    /// The path the converted output of a source file stem is persisted to.
    pub fn output_file_path(&self, stem: &str) -> (r: String)
        ensures
            r@ == self.spec_config().output_dir@ + "/"@ + stem@ + ".html"@,
    {
        let mut s = self.config.output_dir.clone();
        s.append("/");
        s.append(stem);
        s.append(".html");
        s
    }

    /// Decides the end of one conversion from the delegate's report: a
    /// successful highlighting pass yields the output path to persist to; a
    /// failed one yields no result — a soft failure, never an error.
    pub fn conversion_outcome(&self, stem: &str, highlight_ok: bool) -> (r: ConversionOutcome)
        ensures
            highlight_ok ==> (r matches ConversionOutcome::Produced(p) && p@
                == self.spec_config().output_dir@ + "/"@ + stem@ + ".html"@),
            !highlight_ok ==> r is NoResult,
    {
        if highlight_ok {
            ConversionOutcome::Produced(self.output_file_path(stem))
        } else {
            ConversionOutcome::NoResult
        }
    }

    /// The output paths of the conversions that produced one, in order.
    pub open spec fn produced_paths(outcomes: Seq<ConversionOutcome>) -> Seq<Seq<char>>
        decreases outcomes.len(),
    {
        if outcomes.len() == 0 {
            Seq::<Seq<char>>::empty()
        } else {
            let rest = Self::produced_paths(outcomes.skip(1));
            match outcomes[0] {
                ConversionOutcome::Produced(p) => seq![p@] + rest,
                ConversionOutcome::NoResult => rest,
            }
        }
    }

    /// Collects a directory batch's results: the successful output paths, in
    /// order. One file's failure does not remove later files' results.
    pub fn collect_outputs(outcomes: &Vec<ConversionOutcome>) -> (r: Vec<String>)
        ensures
            r.deep_view() == Self::produced_paths(outcomes@),
    {
        let ghost os = outcomes@;
        let mut r: Vec<String> = Vec::new();
        let mut i: usize = 0;
        proof {
            assert(os.skip(0) =~= os);
            assert(Self::produced_paths(os) =~~= r.deep_view() + Self::produced_paths(os.skip(0)));
        }
        while i < outcomes.len()
            invariant
                i <= outcomes.len(),
                os == outcomes@,
                Self::produced_paths(os) == r.deep_view() + Self::produced_paths(
                    os.skip(i as int),
                ),
            decreases outcomes.len() - i,
        {
            proof {
                assert(os.skip(i as int)[0] == os[i as int]);
                assert(os.skip(i as int).skip(1) =~= os.skip(i + 1));
            }
            match &outcomes[i] {
                ConversionOutcome::Produced(p) => {
                    r.push(p.clone());
                },
                ConversionOutcome::NoResult => {},
            }
            proof {
                assert(Self::produced_paths(os) =~~= r.deep_view() + Self::produced_paths(
                    os.skip(i + 1),
                ));
            }
            i += 1;
        }
        proof {
            assert(os.skip(outcomes.len() as int) =~= Seq::<ConversionOutcome>::empty());
            assert(r.deep_view() + Seq::<Seq<char>>::empty() =~~= r.deep_view());
        }
        r
    }
}

/// A failed highlighting pass never produces an output path, and a
/// successful one always does.
pub proof fn lemma_outcome_soft_failure(outcomes: Seq<ConversionOutcome>)
    requires
        forall|i: int| 0 <= i < outcomes.len() ==> outcomes[i] is NoResult,
    ensures
        CodeToHTMLConverter::produced_paths(outcomes) == Seq::<Seq<char>>::empty(),
    decreases outcomes.len(),
{
    if outcomes.len() == 0 {
        assert(CodeToHTMLConverter::produced_paths(outcomes) =~~= Seq::<Seq<char>>::empty());
    } else {
        assert(forall|i: int|
            0 <= i < outcomes.skip(1).len() ==> outcomes.skip(1)[i] == outcomes[i + 1]);
        lemma_outcome_soft_failure(outcomes.skip(1));
    }
}

} // verus!
