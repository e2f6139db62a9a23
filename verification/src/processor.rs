use vstd::prelude::*;
use vstd::string::StringSliceAdditionalSpecFns;
use vstd::utf8::encode_utf8;
use crate::config::Configuration;
use crate::error::ExecutionError;
use crate::dispatch::{HttpRequest, ReqModel, req_view, spec_default_template, EM, err_view};
use crate::document::{FragmentOracle, oracle_view, process_events, spec_process};
use crate::parse::{parse_tags, EventM, spec_parse_chunks};
use crate::value::strs_view;
use crate::xml::spec_scan_doc;

verus! {

/// An instance of the ESI processor: the client request to mimic when
/// building fragment requests, if any, and the configuration.
pub struct Processor {
    pub original_request_metadata: Option<HttpRequest>,
    pub configuration: Configuration,
}

/// The fragment request template a processor uses: the original request's
/// descriptor, or a plain GET to localhost.
pub open spec fn template_model(p: Processor) -> ReqModel {
    match p.original_request_metadata {
        Some(r) => req_view(r),
        None => spec_default_template(),
    }
}

impl Processor {
    /// A processor for one document, with the given request template and
    /// configuration.
    pub fn new(original_request_metadata: Option<HttpRequest>, configuration: Configuration) -> (r:
        Processor)
        ensures
            r.original_request_metadata == original_request_metadata,
            r.configuration == configuration,
    {
        Processor { original_request_metadata, configuration }
    }

    /// Processes a whole ESI document against the oracle: scans the input
    /// into chunks exactly as `spec_scan_doc` says, parses them under the
    /// configured namespace exactly as `spec_parse_chunks` says, and
    /// dispatches and assembles the fragments exactly as `spec_process`
    /// says, in document order. Returns the output bytes and the
    /// dispatched URLs in dispatch order; a scan or parse error, or an
    /// unsuppressed fragment failure, is returned as the corresponding
    /// error. Bytes that precede any pending fragment could be streamed
    /// out at once; with an in-memory sink the buffered and the streamed
    /// forms coincide.
    pub fn process_document(self, input: &str, oracle: &FragmentOracle) -> (r: Result<
        (Vec<u8>, Vec<String>),
        ExecutionError,
    >)
        ensures
            ({
                let nsb = encode_utf8(self.configuration.namespace@);
                let scanned = spec_scan_doc(input.spec_bytes(), 0, Seq::empty());
                match r {
                    Ok(p) => scanned matches Ok(chunks) && spec_parse_chunks(chunks, nsb) matches
                        Ok(ms) && spec_process(
                        ms,
                        self.configuration.is_escaped_content,
                        template_model(self),
                        oracle_view(*oracle),
                    ) == (Ok::<Seq<u8>, EM>(p.0@), strs_view(p.1@)),
                    Err(e) => (scanned is Err && e is XmlParseError) || (scanned matches Ok(chunks)
                        && spec_parse_chunks(chunks, nsb) == Err::<Seq<EventM>, EM>(err_view(e)))
                        || (scanned matches Ok(chunks) && spec_parse_chunks(chunks, nsb) matches
                        Ok(ms) && spec_process(
                        ms,
                        self.configuration.is_escaped_content,
                        template_model(self),
                        oracle_view(*oracle),
                    ).0 == Err::<Seq<u8>, EM>(err_view(e))),
                }
            }),
    {
        let template = match &self.original_request_metadata {
            Some(r) => r.clone_request(),
            None => HttpRequest::default_template(),
        };
        let ns = self.configuration.namespace.as_str();
        proof {
            assert(ns.spec_bytes() == encode_utf8(self.configuration.namespace@));
        }
        let events = match parse_tags(ns, input) {
            Ok(evs) => evs,
            Err(e) => {
                return Err(e);
            },
        };
        match process_events(events, self.configuration.is_escaped_content, &template, oracle) {
            Ok(p) => Ok(p),
            Err(e) => Err(e),
        }
    }
}

} // verus!
