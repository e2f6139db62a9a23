use vstd::prelude::*;

verus! {

/// Optional behaviour of the ESI processor.
#[derive(Clone, Debug)]
pub struct Configuration {
    /// The XML namespace prefix recognised as ESI instructions. Defaults to `esi`.
    pub namespace: String,
    /// Whether attribute URLs are XML-unescaped before use. Disable for
    /// non-HTML templates such as JSON files.
    pub is_escaped_content: bool,
}

impl Configuration {
    /// Sets an alternative ESI namespace; for example, `test` makes the
    /// processor match only tags like `<test:include>`.
    pub fn with_namespace(self, namespace: &str) -> (r: Self)
        ensures
            r.namespace@ == namespace@,
            r.is_escaped_content == self.is_escaped_content,
    {
        Configuration { namespace: namespace.to_owned(), is_escaped_content: self.is_escaped_content }
    }

    /// Enables or disables XML-unescaping of fragment URLs.
    pub fn with_escaped(self, is_escaped: bool) -> (r: Self)
        ensures
            r.namespace@ == self.namespace@,
            r.is_escaped_content == is_escaped,
    {
        Configuration { namespace: self.namespace, is_escaped_content: is_escaped }
    }
}

impl Default for Configuration {
    fn default() -> (r: Self)
        ensures
            r.namespace@ == "esi"@,
            r.is_escaped_content == true,
    {
        Configuration { namespace: "esi".to_owned(), is_escaped_content: true }
    }
}

} // verus!
