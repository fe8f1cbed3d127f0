use vstd::prelude::*;

use crate::namespace::{decode_spec, DecodeError, DecodeErrorView, Namespace, NamespaceView};
use crate::script::{script_from_format_spec, MeguScript, MeguScriptView, ScriptFormat,
    ScriptFormatError, ScriptFormatErrorView, ScriptFormatView};
use crate::table::{table_get, table_insert, table_map, table_wf};

verus! {

/// Raw string form of a namespace: prefix, ':', suffix.
pub open spec fn raw_of(ns: NamespaceView) -> Seq<char> {
    ns.prefix + ":"@ + ns.suffix
}

/// Reference to a base script that another script extends.
#[derive(Debug, Clone, PartialEq)]
pub struct Extension {
    /// Identifier of the base script.
    pub target: Namespace,
}

impl View for Extension {
    type V = NamespaceView;

    open spec fn view(&self) -> NamespaceView {
        self.target@
    }
}

/// Error rejecting an extension reference.
#[derive(Debug, PartialEq)]
pub enum ExtensionError {
    /// The reference is not a well-formed namespace.
    DecodeError(DecodeError),
    /// No base script is stored under the reference; carries the raw
    /// string form of the identifier.
    NotFound(String),
}

/// Mathematical value of an `ExtensionError`.
#[verifier::ext_equal]
pub enum ExtensionErrorView {
    Decode(DecodeErrorView),
    NotFound(Seq<char>),
}

impl View for ExtensionError {
    type V = ExtensionErrorView;

    open spec fn view(&self) -> ExtensionErrorView {
        match self {
            ExtensionError::DecodeError(e) => ExtensionErrorView::Decode(e@),
            ExtensionError::NotFound(v) => ExtensionErrorView::NotFound(v@),
        }
    }
}

/// Backing store of base scripts, keyed by their identifiers.  The
/// lookup is deterministic by key; how the entries were obtained (an
/// embedded registry, a file hierarchy) is the caller's concern.
#[derive(Debug)]
pub struct ExtensionStore {
    /// Stored definitions, no key repeated.
    pub entries: Vec<(Namespace, ScriptFormat)>,
}

impl View for ExtensionStore {
    type V = Map<NamespaceView, ScriptFormatView>;

    open spec fn view(&self) -> Map<NamespaceView, ScriptFormatView> {
        table_map(self.entries@)
    }
}

impl ExtensionStore {
    /// No key repeats among the entries.
    pub open spec fn wf(&self) -> bool {
        table_wf(self.entries@)
    }

    /// Empty store.
    pub fn new() -> (r: ExtensionStore)
        ensures
            r.wf(),
            r@ == Map::<NamespaceView, ScriptFormatView>::empty(),
            r.entries@.len() == 0,
    {
        ExtensionStore { entries: Vec::new() }
    }

    /// Put a base script under an identifier, replacing a stored one.
    pub fn insert(&mut self, key: Namespace, value: ScriptFormat)
        requires
            old(self).wf(),
        ensures
            final(self).wf(),
            final(self)@ == old(self)@.insert(key@, value@),
    {
        table_insert(&mut self.entries, key, value);
    }

    /// Stored base script under an identifier, if any.
    pub fn get(&self, key: &Namespace) -> (r: Option<&ScriptFormat>)
        requires
            self.wf(),
        ensures
            match r {
                Some(f) => self@.contains_key(key@) && self@[key@] == f@,
                None => !self@.contains_key(key@),
            },
    {
        table_get(&self.entries, key)
    }
}

/// Outcome of resolving an extension reference against a store: the
/// decoded (not yet compiled) base script, or the failure.
pub open spec fn resolve_spec(
    ns: NamespaceView,
    store: Map<NamespaceView, ScriptFormatView>,
) -> Result<MeguScriptView, ScriptFormatErrorView> {
    if !store.contains_key(ns) {
        Err(ScriptFormatErrorView::Extension(ExtensionErrorView::NotFound(raw_of(ns))))
    } else {
        script_from_format_spec(store[ns])
    }
}

impl Extension {
    /// Extension referring to `target`.
    pub fn new(target: Namespace) -> (r: Extension)
        ensures
            r == (Extension { target }),
    {
        Extension { target }
    }

    /// Validate a raw extension reference.
    pub fn get_extension(value: &str) -> (r: Result<Extension, ExtensionError>)
        ensures
            match r {
                Ok(ext) => decode_spec(value@) == Ok::<NamespaceView, DecodeErrorView>(ext@),
                Err(e) => decode_spec(value@) is Err && e@ == ExtensionErrorView::Decode(
                    decode_spec(value@)->Err_0,
                ),
            },
    {
        match Namespace::decode(value) {
            Ok(ns) => Ok(Extension { target: ns }),
            Err(e) => Err(ExtensionError::DecodeError(e)),
        }
    }

    /// Raw string form of the reference.
    pub fn to_raw(&self) -> (r: String)
        ensures
            r@ == raw_of(self@),
    {
        let mut r = self.target.prefix.clone();
        r.append(":");
        r.append(self.target.suffix.as_str());
        r
    }

    /// Resolve this reference against `store`: give back the decoded
    /// base script, not yet compiled.
    pub fn compile(&self, store: &ExtensionStore) -> (r: Result<MeguScript, ScriptFormatError>)
        requires
            store.wf(),
        ensures
            match r {
                Ok(s) => s.wf() && resolve_spec(self@, store@) == Ok::<
                    MeguScriptView,
                    ScriptFormatErrorView,
                >(s@),
                Err(e) => resolve_spec(self@, store@) == Err::<
                    MeguScriptView,
                    ScriptFormatErrorView,
                >(e@),
            },
    {
        let data = match store.get(&self.target) {
            Some(f) => f.duplicate(),
            None => {
                return Err(ScriptFormatError::Extension(ExtensionError::NotFound(
                    self.to_raw(),
                )));
            },
        };
        MeguScript::from_script_format(data)
    }
}

} // verus!
