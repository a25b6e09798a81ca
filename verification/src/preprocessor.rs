use crate::anchors::{anchored, insert_anchors};
use crate::config::ColeusConfig;
use crate::events::{events_of, render_of, render_ok};
use crate::json::json_root;
use crate::events::EvModel;
use crate::links::{resolve_all, resolve_links, PageIndex};
use crate::json::JVal;
use crate::metadata::{
    captured_text, has_meta_block, page_meta_ok, strip_metadata, stripped, title_of,
};
use crate::text::dir_part;
use crate::MetaError;
use vstd::prelude::*;
use vstd::string::*;

verus! {

/// The document preprocessor: holds the configuration whose corpus id guards
/// cross-reference tokens.
pub struct Coleus {
    pub config: ColeusConfig,
}

/// The content with the metadata title prepended as a heading.
pub open spec fn titled_content(title: Seq<char>, cleaned: Seq<char>) -> Seq<char> {
    "# "@ + title + "\n"@ + cleaned
}

/// Whether the serializer accepts the anchor-rewritten events of the cleaned
/// content under this title.
pub open spec fn titled_render_ok(ms: Seq<EvModel>, title: Seq<char>) -> bool {
    render_ok(anchored(events_of(titled_content(title, render_of(stripped(ms))))))
}

/// The pipeline succeeds on a document: its metadata block exists and is
/// well-formed, and both serializer passes accept their event sequences.
pub open spec fn pipeline_ok(ms: Seq<EvModel>) -> bool {
    &&& has_meta_block(ms)
    &&& page_meta_ok(json_root(captured_text(ms)))
    &&& render_ok(stripped(ms))
    &&& exists|title: Seq<char>|
        #[trigger] titled_render_ok(ms, title) && title_of(
            json_root(captured_text(ms)).unwrap(),
            title,
        )
}

impl Coleus {
    pub fn new(config: ColeusConfig) -> (r: Coleus)
        ensures
            r.config == config,
    {
        Coleus { config }
    }

    /// Runs one document through the whole pipeline: extract and remove the
    /// metadata block, prepend the title as a heading, replace page-break
    /// sentinels by numbered anchors, and rewrite cross-reference tokens into
    /// relative links against the index.
    pub fn preprocess_chapter(
        &self,
        index: &PageIndex,
        chapter_path: &str,
        content: &str,
    ) -> (r: Result<String, MetaError>)
        requires
            index.wf(),
        ensures
            ({
                let ms = events_of(content@);
                &&& r is Ok <==> pipeline_ok(ms)
                &&& (r == Err::<String, MetaError>(MetaError::MetadataMissing)) <==> !has_meta_block(
                    ms,
                )
                &&& (r == Err::<String, MetaError>(MetaError::MetadataInvalid)) <==> (
                has_meta_block(ms) && !page_meta_ok(json_root(captured_text(ms))))
                &&& (r == Err::<String, MetaError>(MetaError::SerializeFailed)) <==> (
                has_meta_block(ms) && page_meta_ok(json_root(captured_text(ms)))
                    && !pipeline_ok(ms))
                &&& (r matches Ok(out) ==> exists|title: Seq<char>|
                    {
                        &&& #[trigger] title_of(json_root(captured_text(ms)).unwrap(), title)
                        &&& out@ == resolve_all(
                            render_of(
                                anchored(
                                    events_of(
                                        titled_content(title, render_of(stripped(ms))),
                                    ),
                                ),
                            ),
                            self.config.id@,
                            dir_part(chapter_path@, '/'),
                            *index,
                        )
                    })
            }),
    {
        let ghost ms = events_of(content@);
        let (meta, cleaned) = match strip_metadata(content) {
            Err(e) => {
                proof {
                    if e == MetaError::SerializeFailed {
                        assert(!render_ok(stripped(ms)));
                        assert(!pipeline_ok(ms));
                    }
                }
                return Err(e);
            },
            Ok(p) => p,
        };
        let mut titled = String::from_str("# ");
        titled.append(meta.title.as_str());
        titled.append("\n");
        titled.append(cleaned.as_str());
        proof {
            assert(titled@ == titled_content(meta.title@, render_of(stripped(ms))));
        }
        let anchored_content = match insert_anchors(titled.as_str()) {
            None => {
                proof {
                    // the title is determined by the metadata object, so no
                    // other title could make the serializer succeed either
                    assert(!titled_render_ok(ms, meta.title@));
                    assert forall|t: Seq<char>|
                        title_of(json_root(captured_text(ms)).unwrap(), t) implies t
                        == meta.title@ by {
                        assert(JVal::JStr(t) == JVal::JStr(meta.title@));
                    }
                    assert(!pipeline_ok(ms));
                }
                return Err(MetaError::SerializeFailed);
            },
            Some(s) => s,
        };
        proof {
            assert(titled_render_ok(ms, meta.title@));
            assert(pipeline_ok(ms));
        }
        let resolved = resolve_links(
            anchored_content.as_str(),
            chapter_path,
            self.config.id.as_str(),
            index,
        );
        proof {
            let ms = events_of(content@);
            assert(titled@ == titled_content(meta.title@, render_of(stripped(ms))));
            assert(title_of(json_root(captured_text(ms)).unwrap(), meta.title@));
        }
        Ok(resolved)
    }

    /// The preprocessor applies to the HTML renderer alone.
    pub fn supports_renderer(&self, renderer: &str) -> (b: bool)
        ensures
            b == (renderer@ == "html"@),
    {
        let h = String::from_str("html");
        let r = String::from_str(renderer);
        r.eq(&h)
    }
}

} // verus!
