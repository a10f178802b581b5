//! One document from text elements to graph: rules, tree, profile.
use vstd::prelude::*;
use crate::engine::{all_level_one_paragraphs, base_conversion, base_of, non_blank, passes_post, rules_post, spec_minimal, PipelineError, RuleEngine};
use crate::graph::{build_post, lemma_flat_input, BuildError, DocumentGraph, GraphBuilder};
use crate::output::{compute_profile, node_tokens, profile_of, StructuralProfile};
use crate::types::{DocumentMetadata, DocumentType, NodeType, ParsedElementType, ParsedPdfElement, PdfTextElement};

verus! {

/// Why a document could not be processed.
#[derive(Debug, Clone, Copy, PartialEq, Eq, Structural)]
pub enum ProcessError {
    Pipeline(PipelineError),
    Build(BuildError),
    /// The node token counts do not fit in a machine word.
    TokenOverflow,
}

/// A built graph with its profile.
pub struct ProcessedDocument {
    pub graph: DocumentGraph,
    pub structural_profile: StructuralProfile,
}

/// What processing returns once the rules gave `v`: their error; else the
/// error of building the tree; else the graph with its profile (or a token
/// overflow when the node token counts do not fit in a machine word).
pub open spec fn process_post(
    v: Result<Vec<ParsedPdfElement>, PipelineError>,
    metadata: DocumentMetadata,
    document_type: DocumentType,
    r: Result<ProcessedDocument, ProcessError>,
) -> bool {
    match v {
        Err(e) => r == Err::<ProcessedDocument, ProcessError>(ProcessError::Pipeline(e)),
        Ok(els) => exists|gr: Result<DocumentGraph, BuildError>| #[trigger] build_post(els@, metadata.title, gr)
            && (gr matches Ok(g) ==> g.document_info.document_metadata == metadata)
            && match gr {
                Err(be) => r == Err::<ProcessedDocument, ProcessError>(ProcessError::Build(be)),
                Ok(g) => match r {
                    Ok(d) => d.graph == g && profile_of(d.structural_profile, g.nodes@, document_type),
                    Err(ProcessError::TokenOverflow) => node_tokens(g.nodes@) > usize::MAX,
                    Err(_) => false,
                },
            },
    }
}

/// Runs the rules of `engine` over the text elements, builds the tree under
/// `metadata`, and profiles it.
pub fn process_elements(
    engine: &RuleEngine,
    text_elements: &Vec<PdfTextElement>,
    metadata: DocumentMetadata,
) -> (r: Result<ProcessedDocument, ProcessError>)
    requires
        engine.config.wf(),
    ensures
        exists|v: Result<Vec<ParsedPdfElement>, PipelineError>| #[trigger] rules_post(text_elements@, engine.config, spec_minimal(engine.config, engine.minimal_parse_override), v)
            && process_post(v, metadata, engine.config.document_type, r),
        r matches Ok(d) ==> d.graph.wf() && d.structural_profile.total_nodes == d.graph.nodes@.len(),
        spec_minimal(engine.config, engine.minimal_parse_override) ==> (r matches Ok(d) ==> forall|i: int|
            1 <= i < d.graph.nodes@.len() ==> (#[trigger] d.graph.nodes@[i]).node_type == NodeType::Paragraph
                && d.graph.nodes@[i].location.semantic.depth == 1),
        spec_minimal(engine.config, engine.minimal_parse_override) ==> !(r matches Err(ProcessError::Build(_))),
{
    let res = engine.apply_rules(text_elements);
    let ghost v = res;
    let ghost minimal = spec_minimal(engine.config, engine.minimal_parse_override);
    let ghost dt = engine.config.document_type;
    assert(rules_post(text_elements@, engine.config, minimal, v));
    match res {
        Err(e) => {
            assert(process_post(v, metadata, dt, Err::<ProcessedDocument, ProcessError>(ProcessError::Pipeline(e))));
            Err(ProcessError::Pipeline(e))
        },
        Ok(elements) => {
            let ghost elems = elements@;
            let ghost md = metadata;
            let ghost title = metadata.title;
            proof {
                if minimal {
                    let b = choose|b: Seq<ParsedPdfElement>| #[trigger] base_conversion(text_elements@, b) && if minimal {
                        v is Ok && v->Ok_0@ == b
                    } else {
                        passes_post(b, engine.config, v)
                    };
                    assert(elems == b);
                    assert forall|n: int| 0 <= n < elems.len() implies (#[trigger] elems[n]).hierarchy_level == 1
                        && elems[n].element_type == ParsedElementType::Paragraph by {
                        assert(base_of(text_elements@[non_blank(text_elements@)[n]], non_blank(text_elements@)[n], b[n]));
                    }
                    assert(all_level_one_paragraphs(elems));
                }
            }
            let builder = GraphBuilder::new();
            let built = builder.build_graph_with_metadata(elements, metadata);
            let ghost gr = built;
            proof {
                if minimal {
                    lemma_flat_input(elems, title, built);
                }
            }
            match built {
                Err(e) => {
                    assert(build_post(elems, md.title, gr));
                    assert(process_post(v, md, dt, Err::<ProcessedDocument, ProcessError>(ProcessError::Build(e))));
                    Err(ProcessError::Build(e))
                },
                Ok(graph) => {
                    proof {
                        if minimal {
                            assert forall|i: int| 1 <= i < graph.nodes@.len() implies (#[trigger] graph.nodes@[i]).node_type == NodeType::Paragraph
                                && graph.nodes@[i].location.semantic.depth == 1 by {
                                assert(crate::graph::node_from(graph.nodes@[(i - 1) + 1], elems[i - 1], crate::graph::parent_at(elems, i - 1)));
                            }
                        }
                    }
                    assert(build_post(elems, md.title, gr));
                    match compute_profile(&graph.nodes, engine.config.document_type) {
                        Some(p) => {
                            let d = ProcessedDocument { graph, structural_profile: p };
                            assert(process_post(v, md, dt, Ok::<ProcessedDocument, ProcessError>(d)));
                            Ok(d)
                        },
                        None => {
                            assert(process_post(v, md, dt, Err::<ProcessedDocument, ProcessError>(ProcessError::TokenOverflow)));
                            Err(ProcessError::TokenOverflow)
                        },
                    }
                },
            }
        },
    }
}

} // verus!
