use vstd::prelude::*;
use vstd::map::*;

use crate::drops::{drop_format_view, drop_from_format_spec, opt_string_view, DropFormat,
    DropFormatView, DropTypeError, DropTypeErrorView, MeguDrop, MeguDropView};
use crate::extension::{raw_of, resolve_spec, Extension, ExtensionError, ExtensionErrorView,
    ExtensionStore};
use crate::namespace::{decode_spec, DecodeError, DecodeErrorView, Namespace, NamespaceView};
use crate::table::{table_get, table_insert, table_map, table_remove, table_wf};

verus! {

/// Untyped shape of a whole script, as decoded from script text.
#[derive(Debug)]
pub struct ScriptFormat {
    /// Optional tag of the script.
    pub kind: Option<String>,
    /// Raw reference to a base script.
    pub extend: Option<String>,
    /// Raw pool entries: raw namespace keys and untyped drops.
    pub pools: Vec<(String, DropFormat)>,
    /// Raw removal list.
    pub remove: Option<Vec<String>>,
}

/// Mathematical value of a `ScriptFormat`.
#[verifier::ext_equal]
pub struct ScriptFormatView {
    pub kind: Option<Seq<char>>,
    pub extend: Option<Seq<char>>,
    pub pools: Seq<(Seq<char>, DropFormatView)>,
    pub remove: Option<Seq<Seq<char>>>,
}

/// Raw pool entries, viewed pairwise.
pub open spec fn pools_format_view(ps: Seq<(String, DropFormat)>) -> Seq<
    (Seq<char>, DropFormatView),
> {
    Seq::new(ps.len(), |i: int| (ps[i].0@, drop_format_view(ps[i].1)))
}

/// Raw strings, viewed one by one.
pub open spec fn strings_view(ss: Seq<String>) -> Seq<Seq<char>> {
    Seq::new(ss.len(), |i: int| ss[i]@)
}

impl View for ScriptFormat {
    type V = ScriptFormatView;

    open spec fn view(&self) -> ScriptFormatView {
        ScriptFormatView {
            kind: opt_string_view(self.kind),
            extend: opt_string_view(self.extend),
            pools: pools_format_view(self.pools@),
            remove: match self.remove {
                Some(rs) => Some(strings_view(rs@)),
                None => None,
            },
        }
    }
}

impl ScriptFormat {
    /// Copy of this format with the same mathematical value.
    pub fn duplicate(&self) -> (r: ScriptFormat)
        ensures
            r@ == self@,
    {
        let mut pools: Vec<(String, DropFormat)> = Vec::new();
        let mut i: usize = 0;
        while i < self.pools.len()
            invariant
                i <= self.pools@.len(),
                pools@.len() == i,
                forall|j: int| 0 <= j < i ==> pools@[j].0@ == self.pools@[j].0@
                    && drop_format_view(#[trigger] pools@[j].1) == drop_format_view(
                    self.pools@[j].1,
                ),
            decreases self.pools@.len() - i,
        {
            let key = self.pools[i].0.clone();
            let value = self.pools[i].1.duplicate();
            pools.push((key, value));
            i = i + 1;
        }
        let remove = match &self.remove {
            None => None,
            Some(rs) => {
                let mut out: Vec<String> = Vec::new();
                let mut j: usize = 0;
                while j < rs.len()
                    invariant
                        j <= rs@.len(),
                        out@.len() == j,
                        forall|a: int| 0 <= a < j ==> out@[a] == rs@[a],
                    decreases rs@.len() - j,
                {
                    out.push(rs[j].clone());
                    j = j + 1;
                }
                Some(out)
            },
        };
        let r = ScriptFormat {
            kind: match &self.kind {
                Some(k) => Some(k.clone()),
                None => None,
            },
            extend: match &self.extend {
                Some(e) => Some(e.clone()),
                None => None,
            },
            pools,
            remove,
        };
        proof {
            assert(pools_format_view(r.pools@) =~= pools_format_view(self.pools@));
            if self.remove is Some {
                assert(strings_view(r.remove->Some_0@) =~= strings_view(
                    self.remove->Some_0@,
                ));
            }
            assert(r@ =~= self@);
        }
        r
    }
}

/// Error rejecting a script's untyped shape.
#[derive(Debug, PartialEq)]
pub enum ScriptFormatError {
    /// The `extend` reference is invalid.
    Extension(ExtensionError),
    /// A pool entry's type is invalid or ill-declared.
    DropType(DropTypeError),
    /// A namespace in the removal list is invalid.
    Decode(DecodeError),
}

/// Mathematical value of a `ScriptFormatError`.
#[verifier::ext_equal]
pub enum ScriptFormatErrorView {
    Extension(ExtensionErrorView),
    DropType(DropTypeErrorView),
    Decode(DecodeErrorView),
}

impl View for ScriptFormatError {
    type V = ScriptFormatErrorView;

    open spec fn view(&self) -> ScriptFormatErrorView {
        match self {
            ScriptFormatError::Extension(e) => ScriptFormatErrorView::Extension(e@),
            ScriptFormatError::DropType(e) => ScriptFormatErrorView::DropType(e@),
            ScriptFormatError::Decode(e) => ScriptFormatErrorView::Decode(e@),
        }
    }
}

/// Error reading a script: a bad shape, or a failure of the reader or
/// of the structured decoder around the core (those two carry only a
/// message here; they arise outside the verified interpreter).
#[derive(Debug)]
pub enum ReadError {
    /// The decoded shape is invalid.
    ScriptFormat(ScriptFormatError),
    /// Reading the bytes failed.
    Io(String),
    /// Decoding the bytes into the untyped shape failed.
    Serde(String),
}

/// Mathematical value of a `ReadError`.
#[verifier::ext_equal]
pub enum ReadErrorView {
    ScriptFormat(ScriptFormatErrorView),
    Io(Seq<char>),
    Serde(Seq<char>),
}

impl View for ReadError {
    type V = ReadErrorView;

    open spec fn view(&self) -> ReadErrorView {
        match self {
            ReadError::ScriptFormat(e) => ReadErrorView::ScriptFormat(e@),
            ReadError::Io(m) => ReadErrorView::Io(m@),
            ReadError::Serde(m) => ReadErrorView::Serde(m@),
        }
    }
}

/// Error interpreting a script file; paths are carried as plain text.
#[derive(Debug)]
pub enum MeguError {
    /// The path does not exist.
    NotExist(String),
    /// The path is not a file.
    NotAFile(String),
    /// The file could not be read as a script.
    Read((String, ReadError)),
}

/// A script: an optional tag, an optional extension reference, pools
/// keyed by namespace, and a removal list.
#[derive(Debug, PartialEq)]
pub struct MeguScript {
    /// Optional tag of the script.
    pub kind: Option<String>,
    /// Reference to a base script whose pools this script inherits.
    pub extend: Option<Extension>,
    /// Pool entries, no key repeated.
    pub pools: Vec<(Namespace, MeguDrop)>,
    /// Namespaces to delete from the pools after inheritance.
    pub remove: Vec<Namespace>,
}

/// Mathematical value of a `MeguScript`.
#[verifier::ext_equal]
pub struct MeguScriptView {
    pub kind: Option<Seq<char>>,
    pub extend: Option<NamespaceView>,
    pub pools: Map<NamespaceView, MeguDropView>,
    pub remove: Seq<NamespaceView>,
}

/// Namespaces, viewed one by one.
pub open spec fn namespaces_view(ns: Seq<Namespace>) -> Seq<NamespaceView> {
    Seq::new(ns.len(), |i: int| ns[i]@)
}

impl View for MeguScript {
    type V = MeguScriptView;

    open spec fn view(&self) -> MeguScriptView {
        MeguScriptView {
            kind: opt_string_view(self.kind),
            extend: match self.extend {
                Some(e) => Some(e@),
                None => None,
            },
            pools: table_map(self.pools@),
            remove: namespaces_view(self.remove@),
        }
    }
}

/// Pools built from raw entries in order: decode each key, build each
/// drop, fail-fast on the first error; a later entry overrides an
/// earlier one with the same key.
pub open spec fn pools_from_format_spec(fs: Seq<(Seq<char>, DropFormatView)>) -> Result<
    Map<NamespaceView, MeguDropView>,
    DropTypeErrorView,
>
    decreases fs.len(),
{
    if fs.len() == 0 {
        Ok(Map::empty())
    } else {
        match decode_spec(fs[0].0) {
            Err(e) => Err(DropTypeErrorView::Decode(e)),
            Ok(ns) => match drop_from_format_spec(fs[0].1) {
                Err(e) => Err(e),
                Ok(d) => match pools_from_format_spec(fs.subrange(1, fs.len() as int)) {
                    Err(e) => Err(e),
                    Ok(m) => Ok(
                        if m.contains_key(ns) {
                            m
                        } else {
                            m.insert(ns, d)
                        },
                    ),
                },
            },
        }
    }
}

/// Removal list decoded in order, fail-fast.
pub open spec fn decode_list_spec(rs: Seq<Seq<char>>) -> Result<Seq<NamespaceView>, DecodeErrorView>
    decreases rs.len(),
{
    if rs.len() == 0 {
        Ok(Seq::empty())
    } else {
        match decode_spec(rs[0]) {
            Err(e) => Err(e),
            Ok(ns) => match decode_list_spec(rs.subrange(1, rs.len() as int)) {
                Err(e) => Err(e),
                Ok(nss) => Ok(seq![ns] + nss),
            },
        }
    }
}

/// Script built from an untyped shape: validate the extension
/// reference, then the pools, then the removal list; the first failure
/// aborts the whole decode.
pub open spec fn script_from_format_spec(f: ScriptFormatView) -> Result<
    MeguScriptView,
    ScriptFormatErrorView,
> {
    let ext: Result<Option<NamespaceView>, ScriptFormatErrorView> = match f.extend {
        Some(raw) => match decode_spec(raw) {
            Err(e) => Err(ScriptFormatErrorView::Extension(ExtensionErrorView::Decode(e))),
            Ok(ns) => Ok(Some(ns)),
        },
        None => Ok(None),
    };
    match ext {
        Err(e) => Err(e),
        Ok(extend) => match pools_from_format_spec(f.pools) {
            Err(e) => Err(ScriptFormatErrorView::DropType(e)),
            Ok(pools) => match (match f.remove {
                Some(rs) => decode_list_spec(rs),
                None => Ok(Seq::empty()),
            }) {
                Err(e) => Err(ScriptFormatErrorView::Decode(e)),
                Ok(remove) => Ok(MeguScriptView { kind: f.kind, extend, pools, remove }),
            },
        },
    }
}

/// One compile step: with no extension the script's own pools stand on
/// an empty base; with one, the base is resolved, compiled first (the
/// chain may go on through further references, each base usable once
/// per chain as `fuel` bounds the depth), and this script is merged on
/// top: its pools override, removal lists concatenate base-then-self.
pub open spec fn compile_spec(
    s: MeguScriptView,
    store: Map<NamespaceView, ScriptFormatView>,
    fuel: nat,
) -> Result<MeguScriptView, ReadErrorView>
    decreases fuel,
{
    match s.extend {
        None => Ok(MeguScriptView { kind: None, extend: None, pools: s.pools, remove: s.remove }),
        Some(ns) => if fuel == 0 {
            Err(ReadErrorView::ScriptFormat(ScriptFormatErrorView::Extension(
                ExtensionErrorView::NotFound(raw_of(ns)),
            )))
        } else {
            match resolve_spec(ns, store) {
                Err(e) => Err(ReadErrorView::ScriptFormat(e)),
                Ok(base) => match compile_spec(base, store, (fuel - 1) as nat) {
                    Err(e) => Err(e),
                    Ok(cb) => Ok(MeguScriptView {
                        kind: cb.kind,
                        extend: cb.extend,
                        pools: cb.pools.union_prefer_right(s.pools),
                        remove: cb.remove + s.remove,
                    }),
                },
            }
        },
    }
}

/// Removal pass: delete each listed key in order from the pools (a
/// missing key is a no-op), recording what each deletion gave back.
pub open spec fn remove_fold_spec(
    pools: Map<NamespaceView, MeguDropView>,
    rs: Seq<NamespaceView>,
) -> (Map<NamespaceView, MeguDropView>, Seq<Option<MeguDropView>>)
    decreases rs.len(),
{
    if rs.len() == 0 {
        (pools, Seq::empty())
    } else {
        let r0: Option<MeguDropView> = if pools.contains_key(rs[0]) {
            Some(pools[rs[0]])
        } else {
            None
        };
        let rest = remove_fold_spec(pools.remove(rs[0]), rs.subrange(1, rs.len() as int));
        (rest.0, seq![r0] + rest.1)
    }
}

/// The removal pass deletes exactly the listed keys.
pub proof fn lemma_remove_fold_pools(
    pools: Map<NamespaceView, MeguDropView>,
    rs: Seq<NamespaceView>,
)
    ensures
        remove_fold_spec(pools, rs).0 == pools.remove_keys(rs.to_set()),
    decreases rs.len(),
{
    if rs.len() == 0 {
        assert(pools.remove_keys(rs.to_set()) =~= pools);
    } else {
        let sub = rs.subrange(1, rs.len() as int);
        lemma_remove_fold_pools(pools.remove(rs[0]), sub);
        assert forall|k: NamespaceView| rs.to_set().contains(k) <==> (k == rs[0]
            || sub.to_set().contains(k)) by {
            if rs.contains(k) {
                let i = choose|i: int| 0 <= i < rs.len() && rs[i] == k;
                if i > 0 {
                    assert(sub[i - 1] == k);
                }
            }
            if sub.contains(k) {
                let i = choose|i: int| 0 <= i < sub.len() && sub[i] == k;
                assert(rs[i + 1] == k);
            }
        }
        assert(pools.remove(rs[0]).remove_keys(sub.to_set()) =~= pools.remove_keys(rs.to_set()));
    }
}

/// Applying the removal pass twice yields the same pools as once.
pub proof fn lemma_removal_idempotent(
    pools: Map<NamespaceView, MeguDropView>,
    rs: Seq<NamespaceView>,
)
    ensures
        remove_fold_spec(remove_fold_spec(pools, rs).0, rs).0 == remove_fold_spec(pools, rs).0,
{
    lemma_remove_fold_pools(pools, rs);
    lemma_remove_fold_pools(remove_fold_spec(pools, rs).0, rs);
    assert(pools.remove_keys(rs.to_set()).remove_keys(rs.to_set()) =~= pools.remove_keys(
        rs.to_set(),
    ));
}

/// Scripts, viewed one by one.
pub open spec fn scripts_view(ss: Seq<MeguScript>) -> Seq<MeguScriptView> {
    Seq::new(ss.len(), |i: int| ss[i]@)
}

/// Accumulated combination: compile each script in the given order and
/// merge it onto the accumulator, so a later script overrides an
/// earlier one on a key collision and removal lists concatenate.
pub open spec fn combine_spec(
    ss: Seq<MeguScriptView>,
    store: Map<NamespaceView, ScriptFormatView>,
    fuel: nat,
) -> Result<(Map<NamespaceView, MeguDropView>, Seq<NamespaceView>), ReadErrorView>
    decreases ss.len(),
{
    if ss.len() == 0 {
        Ok((Map::empty(), Seq::empty()))
    } else {
        match combine_spec(ss.drop_last(), store, fuel) {
            Err(e) => Err(e),
            Ok(acc) => match compile_spec(ss.last(), store, fuel) {
                Err(e) => Err(e),
                Ok(c) => Ok((acc.0.union_prefer_right(c.pools), acc.1 + c.remove)),
            },
        }
    }
}

/// Whole combination: combine in order, then apply the accumulated
/// removal list once at the end.
pub open spec fn merge_spec(
    ss: Seq<MeguScriptView>,
    store: Map<NamespaceView, ScriptFormatView>,
    fuel: nat,
) -> Result<MeguScriptView, ReadErrorView> {
    match combine_spec(ss, store, fuel) {
        Err(e) => Err(e),
        Ok(acc) => Ok(MeguScriptView {
            kind: None,
            extend: None,
            pools: remove_fold_spec(acc.0, acc.1).0,
            remove: acc.1,
        }),
    }
}

/// Options of drops, viewed one by one.
pub open spec fn opt_drops_seq_view(s: Seq<Option<MeguDrop>>) -> Seq<Option<MeguDropView>> {
    Seq::new(
        s.len(),
        |i: int| match s[i] {
            Some(d) => Some(d@),
            None => None,
        },
    )
}

impl MeguScript {
    /// No pool key repeats.
    pub open spec fn wf(&self) -> bool {
        table_wf(self.pools@)
    }

    /// Build a script directly from already-validated parts, without
    /// check.
    pub fn new(
        kind: Option<String>,
        extend: Option<Extension>,
        pools: Vec<(Namespace, MeguDrop)>,
        remove: Vec<Namespace>,
    ) -> (r: MeguScript)
        ensures
            r == (MeguScript { kind, extend, pools, remove }),
    {
        MeguScript { kind, extend, pools, remove }
    }

    /// Runtime check that no pool key repeats.
    pub fn check_pools(&self) -> (r: bool)
        ensures
            r == self.wf(),
    {
        let mut i: usize = 0;
        while i < self.pools.len()
            invariant
                i <= self.pools@.len(),
                forall|a: int, b: int|
                    0 <= a < b < self.pools@.len() && a < i ==> self.pools@[a].0@
                        != self.pools@[b].0@,
            decreases self.pools@.len() - i,
        {
            let mut j: usize = i + 1;
            while j < self.pools.len()
                invariant
                    i < j <= self.pools@.len(),
                    i < self.pools@.len(),
                    forall|b: int| i < b < j ==> self.pools@[i as int].0@ != self.pools@[b].0@,
                decreases self.pools@.len() - j,
            {
                if self.pools[i].0.same_as(&self.pools[j].0) {
                    proof {
                        assert(self.pools@[i as int].0@ == self.pools@[j as int].0@);
                        assert(!self.wf());
                    }
                    return false;
                }
                j = j + 1;
            }
            i = i + 1;
        }
        true
    }

    /// Drop stored under `key`, if any.
    pub fn get(&self, key: &Namespace) -> (r: Option<&MeguDrop>)
        requires
            self.wf(),
        ensures
            match r {
                Some(d) => self@.pools.contains_key(key@) && self@.pools[key@] == d@,
                None => !self@.pools.contains_key(key@),
            },
    {
        table_get(&self.pools, key)
    }

    /// Build raw pool entries into pools: decode each key, build each
    /// drop, fail on the first invalid entry.
    pub fn from_pools_format(format: Vec<(String, DropFormat)>) -> (r: Result<
        Vec<(Namespace, MeguDrop)>,
        DropTypeError,
    >)
        ensures
            match r {
                Ok(ps) => table_wf(ps@) && pools_from_format_spec(pools_format_view(format@))
                    == Ok::<Map<NamespaceView, MeguDropView>, DropTypeErrorView>(table_map(ps@)),
                Err(e) => pools_from_format_spec(pools_format_view(format@)) == Err::<
                    Map<NamespaceView, MeguDropView>,
                    DropTypeErrorView,
                >(e@),
            },
    {
        let ghost fv = pools_format_view(format@);
        let mut ps: Vec<(Namespace, MeguDrop)> = Vec::new();
        let mut i: usize = 0;
        proof {
            assert(fv.subrange(0, fv.len() as int) =~= fv);
            if pools_from_format_spec(fv) is Ok {
                let m = pools_from_format_spec(fv)->Ok_0;
                assert(table_map(ps@).union_prefer_right(m) =~= m);
            }
        }
        while i < format.len()
            invariant
                i <= format@.len(),
                fv == pools_format_view(format@),
                fv.len() == format@.len(),
                table_wf(ps@),
                pools_from_format_spec(fv) == (match pools_from_format_spec(
                    fv.subrange(i as int, fv.len() as int),
                ) {
                    Err(e) => Err::<Map<NamespaceView, MeguDropView>, DropTypeErrorView>(e),
                    Ok(m) => Ok(table_map(ps@).union_prefer_right(m)),
                }),
            decreases format@.len() - i,
        {
            proof {
                assert(fv.subrange(i as int, fv.len() as int)[0] == fv[i as int]);
                assert(fv.subrange(i as int, fv.len() as int).subrange(1, fv.len() - i)
                    =~= fv.subrange(i as int + 1, fv.len() as int));
            }
            let ns = match Namespace::decode(format[i].0.as_str()) {
                Ok(ns) => ns,
                Err(e) => {
                    return Err(DropTypeError::DecodeError(e));
                },
            };
            let d = match MeguDrop::from_drop_format(&format[i].1) {
                Ok(d) => d,
                Err(e) => {
                    return Err(e);
                },
            };
            let ghost ps_old = ps@;
            table_insert(&mut ps, ns, d);
            proof {
                let sub_n = fv.subrange(i as int + 1, fv.len() as int);
                if pools_from_format_spec(sub_n) is Ok {
                    let m2 = pools_from_format_spec(sub_n)->Ok_0;
                    let m_i: Map<NamespaceView, MeguDropView> = if m2.contains_key(ns@) {
                        m2
                    } else {
                        m2.insert(ns@, d@)
                    };
                    assert(table_map(ps_old).union_prefer_right(m_i) =~= table_map(
                        ps@,
                    ).union_prefer_right(m2));
                }
            }
            i = i + 1;
        }
        proof {
            assert(fv.subrange(i as int, fv.len() as int) =~= Seq::<
                (Seq<char>, DropFormatView),
            >::empty());
            assert(table_map(ps@).union_prefer_right(Map::empty()) =~= table_map(ps@));
        }
        Ok(ps)
    }

    /// Decode the raw removal list in order, failing on the first
    /// invalid namespace.
    fn decode_remove_list(rs: &Option<Vec<String>>) -> (r: Result<Vec<Namespace>, DecodeError>)
        ensures
            match r {
                Ok(ns) => (match *rs {
                    Some(ss) => decode_list_spec(strings_view(ss@)),
                    None => Ok(Seq::empty()),
                }) == Ok::<Seq<NamespaceView>, DecodeErrorView>(namespaces_view(ns@)),
                Err(e) => (match *rs {
                    Some(ss) => decode_list_spec(strings_view(ss@)),
                    None => Ok(Seq::empty()),
                }) == Err::<Seq<NamespaceView>, DecodeErrorView>(e@),
            },
    {
        match rs {
            None => {
                proof {
                    assert(namespaces_view(Seq::<Namespace>::empty()) =~= Seq::<
                        NamespaceView,
                    >::empty());
                }
                Ok(Vec::new())
            },
            Some(ss) => {
                let ghost sv = strings_view(ss@);
                let mut out: Vec<Namespace> = Vec::new();
                let mut i: usize = 0;
                proof {
                    assert(sv.subrange(0, sv.len() as int) =~= sv);
                    assert(namespaces_view(out@) =~= Seq::<NamespaceView>::empty());
                }
                while i < ss.len()
                    invariant
                        i <= ss@.len(),
                        *rs is Some,
                        ss@ == rs->Some_0@,
                        sv == strings_view(ss@),
                        sv.len() == ss@.len(),
                        out@.len() == i,
                        decode_list_spec(sv) == (match decode_list_spec(
                            sv.subrange(i as int, sv.len() as int),
                        ) {
                            Err(e) => Err::<Seq<NamespaceView>, DecodeErrorView>(e),
                            Ok(rest) => Ok(namespaces_view(out@) + rest),
                        }),
                    decreases ss@.len() - i,
                {
                    proof {
                        assert(sv.subrange(i as int, sv.len() as int)[0] == sv[i as int]);
                        assert(sv.subrange(i as int, sv.len() as int).subrange(1, sv.len() - i)
                            =~= sv.subrange(i as int + 1, sv.len() as int));
                    }
                    let ns = match Namespace::decode(ss[i].as_str()) {
                        Ok(ns) => ns,
                        Err(e) => {
                            return Err(e);
                        },
                    };
                    let ghost out_old = out@;
                    out.push(ns);
                    proof {
                        let sub_n = sv.subrange(i as int + 1, sv.len() as int);
                        assert(namespaces_view(out@) =~= namespaces_view(out_old) + seq![
                            out@[i as int]@,
                        ]);
                        if decode_list_spec(sub_n) is Ok {
                            let rest2 = decode_list_spec(sub_n)->Ok_0;
                            assert(namespaces_view(out_old) + (seq![out@[i as int]@] + rest2)
                                =~= namespaces_view(out@) + rest2);
                        }
                    }
                    i = i + 1;
                }
                proof {
                    assert(sv.subrange(i as int, sv.len() as int) =~= Seq::<Seq<char>>::empty());
                    assert(namespaces_view(out@) + Seq::<NamespaceView>::empty()
                        =~= namespaces_view(out@));
                }
                Ok(out)
            },
        }
    }

    /// Build a script from its untyped shape: validate the extension
    /// reference, the pools, and the removal list, failing on the first
    /// invalid part.
    pub fn from_script_format(format: ScriptFormat) -> (r: Result<MeguScript, ScriptFormatError>)
        ensures
            match r {
                Ok(s) => s.wf() && script_from_format_spec(format@) == Ok::<
                    MeguScriptView,
                    ScriptFormatErrorView,
                >(s@),
                Err(e) => script_from_format_spec(format@) == Err::<
                    MeguScriptView,
                    ScriptFormatErrorView,
                >(e@),
            },
    {
        let ghost fv = format@;
        let ScriptFormat { kind, extend, pools, remove } = format;
        let ext = match extend {
            Some(raw) => match Extension::get_extension(raw.as_str()) {
                Ok(e) => Some(e),
                Err(e) => {
                    return Err(ScriptFormatError::Extension(e));
                },
            },
            None => None,
        };
        let pools = match MeguScript::from_pools_format(pools) {
            Ok(ps) => ps,
            Err(e) => {
                return Err(ScriptFormatError::DropType(e));
            },
        };
        let remove = match MeguScript::decode_remove_list(&remove) {
            Ok(ns) => ns,
            Err(e) => {
                return Err(ScriptFormatError::Decode(e));
            },
        };
        let r = MeguScript { kind, extend: ext, pools, remove };
        proof {
            assert(r@ =~= script_from_format_spec(fv)->Ok_0);
        }
        Ok(r)
    }

    /// Merge this script into `other`: every pool entry of this script
    /// is put into `other`, overwriting on a key collision, and this
    /// script's removal list is appended to `other`'s.  This script is
    /// unchanged.
    pub fn merge(&self, other: &mut MeguScript)
        requires
            self.wf(),
            old(other).wf(),
        ensures
            final(other).wf(),
            final(other)@.pools == old(other)@.pools.union_prefer_right(self@.pools),
            final(other)@.remove == old(other)@.remove + self@.remove,
            final(other).kind == old(other).kind,
            final(other).extend == old(other).extend,
    {
        let mut i: usize = 0;
        proof {
            assert(self.pools@.subrange(0, 0) =~= Seq::<(Namespace, MeguDrop)>::empty());
            assert(table_map(other.pools@).union_prefer_right(
                table_map(self.pools@.subrange(0, 0)),
            ) =~= table_map(other.pools@));
        }
        while i < self.pools.len()
            invariant
                i <= self.pools@.len(),
                self.wf(),
                table_wf(other.pools@),
                table_map(other.pools@) == table_map(old(other).pools@).union_prefer_right(
                    table_map(self.pools@.subrange(0, i as int)),
                ),
                other.kind == old(other).kind,
                other.extend == old(other).extend,
                other.remove == old(other).remove,
            decreases self.pools@.len() - i,
        {
            let key = self.pools[i].0.duplicate();
            let value = self.pools[i].1.duplicate();
            let ghost pools_old = other.pools@;
            table_insert(&mut other.pools, key, value);
            proof {
                let sub1 = self.pools@.subrange(0, i + 1);
                assert(sub1.drop_last() =~= self.pools@.subrange(0, i as int));
                assert(sub1.last() == self.pools@[i as int]);
                assert(table_map(pools_old).insert(self.pools@[i as int].0@, self.pools@[i as int].1@)
                    =~= table_map(old(other).pools@).union_prefer_right(table_map(sub1)));
            }
            i = i + 1;
        }
        proof {
            assert(self.pools@.subrange(0, self.pools@.len() as int) =~= self.pools@);
        }
        let mut j: usize = 0;
        proof {
            assert(other.remove@.subrange(0, other.remove@.len() as int) =~= other.remove@);
            assert(other.remove@ =~= old(other).remove@ + self.remove@.subrange(0, 0));
        }
        while j < self.remove.len()
            invariant
                j <= self.remove@.len(),
                self.wf(),
                table_wf(other.pools@),
                table_map(other.pools@) == table_map(old(other).pools@).union_prefer_right(
                    table_map(self.pools@),
                ),
                other.kind == old(other).kind,
                other.extend == old(other).extend,
                other.remove@ == old(other).remove@ + self.remove@.subrange(0, j as int),
            decreases self.remove@.len() - j,
        {
            let ns = self.remove[j].duplicate();
            let ghost remove_old = other.remove@;
            other.remove.push(ns);
            proof {
                assert(other.remove@ =~= old(other).remove@ + self.remove@.subrange(0, j + 1));
            }
            j = j + 1;
        }
        proof {
            assert(self.remove@.subrange(0, self.remove@.len() as int) =~= self.remove@);
            assert(namespaces_view(other.remove@) =~= namespaces_view(old(other).remove@)
                + namespaces_view(self.remove@));
        }
    }

    /// Resolve this script's inheritance: compile the extension chain
    /// and merge this script on top of the compiled base.
    pub fn compile(&self, store: &ExtensionStore) -> (r: Result<MeguScript, ReadError>)
        requires
            self.wf(),
            store.wf(),
            store.entries@.len() < usize::MAX,
        ensures
            match r {
                Ok(s) => s.wf() && compile_spec(self@, store@, (store.entries@.len() + 1) as nat)
                    == Ok::<MeguScriptView, ReadErrorView>(s@),
                Err(e) => compile_spec(self@, store@, (store.entries@.len() + 1) as nat) == Err::<
                    MeguScriptView,
                    ReadErrorView,
                >(e@),
            },
    {
        self.compile_fuel(store, store.entries.len() + 1)
    }

    /// Compile with an explicit bound on the chain's depth.
    fn compile_fuel(&self, store: &ExtensionStore, fuel: usize) -> (r: Result<
        MeguScript,
        ReadError,
    >)
        requires
            self.wf(),
            store.wf(),
        ensures
            match r {
                Ok(s) => s.wf() && compile_spec(self@, store@, fuel as nat) == Ok::<
                    MeguScriptView,
                    ReadErrorView,
                >(s@),
                Err(e) => compile_spec(self@, store@, fuel as nat) == Err::<
                    MeguScriptView,
                    ReadErrorView,
                >(e@),
            },
        decreases fuel,
    {
        match &self.extend {
            None => {
                let mut result = MeguScript::default();
                self.merge(&mut result);
                proof {
                    assert(result@.pools =~= self@.pools);
                    assert(result@.remove =~= self@.remove);
                    assert(result@ =~= compile_spec(
                        self@,
                        store@,
                        fuel as nat,
                    )->Ok_0);
                }
                Ok(result)
            },
            Some(ext) => {
                if fuel == 0 {
                    return Err(ReadError::ScriptFormat(ScriptFormatError::Extension(
                        ExtensionError::NotFound(ext.to_raw()),
                    )));
                }
                let base = match ext.compile(store) {
                    Ok(b) => b,
                    Err(e) => {
                        return Err(ReadError::ScriptFormat(e));
                    },
                };
                let compiled = match base.compile_fuel(store, fuel - 1) {
                    Ok(c) => c,
                    Err(e) => {
                        return Err(e);
                    },
                };
                let mut result = compiled;
                self.merge(&mut result);
                proof {
                    assert(result@ =~= compile_spec(self@, store@, fuel as nat)->Ok_0);
                }
                Ok(result)
            },
        }
    }

    /// Delete every pool entry named in the removal list, in order; a
    /// missing key is a no-op.  Gives back, for each listed namespace,
    /// the entry it deleted, if any.  The removal list itself is kept.
    pub fn remove_drops(&mut self) -> (r: Vec<Option<MeguDrop>>)
        requires
            old(self).wf(),
        ensures
            final(self).wf(),
            final(self).kind == old(self).kind,
            final(self).extend == old(self).extend,
            final(self).remove == old(self).remove,
            final(self)@.pools == remove_fold_spec(old(self)@.pools, old(self)@.remove).0,
            opt_drops_seq_view(r@) == remove_fold_spec(old(self)@.pools, old(self)@.remove).1,
            final(self)@.pools == old(self)@.pools.remove_keys(old(self)@.remove.to_set()),
    {
        let ghost rs = old(self)@.remove;
        let mut out: Vec<Option<MeguDrop>> = Vec::new();
        let mut i: usize = 0;
        proof {
            assert(rs.subrange(0, rs.len() as int) =~= rs);
            assert(opt_drops_seq_view(out@) =~= Seq::<Option<MeguDropView>>::empty());
        }
        while i < self.remove.len()
            invariant
                i <= self.remove@.len(),
                table_wf(self.pools@),
                self.kind == old(self).kind,
                self.extend == old(self).extend,
                self.remove == old(self).remove,
                rs == namespaces_view(self.remove@),
                rs.len() == self.remove@.len(),
                out@.len() == i,
                remove_fold_spec(old(self)@.pools, rs).0 == remove_fold_spec(
                    table_map(self.pools@),
                    rs.subrange(i as int, rs.len() as int),
                ).0,
                remove_fold_spec(old(self)@.pools, rs).1 == opt_drops_seq_view(out@)
                    + remove_fold_spec(
                    table_map(self.pools@),
                    rs.subrange(i as int, rs.len() as int),
                ).1,
            decreases self.remove@.len() - i,
        {
            proof {
                assert(rs.subrange(i as int, rs.len() as int)[0] == rs[i as int]);
                assert(rs.subrange(i as int, rs.len() as int).subrange(1, rs.len() - i)
                    =~= rs.subrange(i as int + 1, rs.len() as int));
            }
            let key = self.remove[i].duplicate();
            let ghost pools_old = table_map(self.pools@);
            let removed = table_remove(&mut self.pools, &key);
            let ghost out_old = out@;
            out.push(removed);
            proof {
                let sub_n = rs.subrange(i as int + 1, rs.len() as int);
                let r0: Option<MeguDropView> = if pools_old.contains_key(rs[i as int]) {
                    Some(pools_old[rs[i as int]])
                } else {
                    None
                };
                assert(opt_drops_seq_view(out@) =~= opt_drops_seq_view(out_old) + seq![r0]);
                assert(opt_drops_seq_view(out_old) + (seq![r0] + remove_fold_spec(
                    table_map(self.pools@),
                    sub_n,
                ).1) =~= opt_drops_seq_view(out@) + remove_fold_spec(
                    table_map(self.pools@),
                    sub_n,
                ).1);
            }
            i = i + 1;
        }
        proof {
            assert(rs.subrange(i as int, rs.len() as int) =~= Seq::<NamespaceView>::empty());
            assert(opt_drops_seq_view(out@) + Seq::<Option<MeguDropView>>::empty()
                =~= opt_drops_seq_view(out@));
            lemma_remove_fold_pools(old(self)@.pools, rs);
        }
        out
    }
}

impl Default for MeguScript {
    /// Empty script: no tag, no extension, no pools, no removals.
    fn default() -> (r: MeguScript)
        ensures
            r.wf(),
            r@ == (MeguScriptView {
                kind: None,
                extend: None,
                pools: Map::<NamespaceView, MeguDropView>::empty(),
                remove: Seq::<NamespaceView>::empty(),
            }),
            r.kind is None,
            r.extend is None,
    {
        let r = MeguScript {
            kind: None,
            extend: None,
            pools: Vec::new(),
            remove: Vec::new(),
        };
        proof {
            assert(r@ =~= (MeguScriptView {
                kind: None,
                extend: None,
                pools: Map::<NamespaceView, MeguDropView>::empty(),
                remove: Seq::<NamespaceView>::empty(),
            }));
        }
        r
    }
}

/// Combine scripts in the given order into one: compile each script,
/// merge it onto the accumulator (a later script overrides an earlier
/// one on a key collision), then apply the accumulated removal list
/// once at the end.
pub fn merge(scripts: &Vec<MeguScript>, store: &ExtensionStore) -> (r: Result<
    MeguScript,
    ReadError,
>)
    requires
        forall|i: int| 0 <= i < scripts@.len() ==> (#[trigger] scripts@[i]).wf(),
        store.wf(),
        store.entries@.len() < usize::MAX,
    ensures
        match r {
            Ok(s) => s.wf() && merge_spec(
                scripts_view(scripts@),
                store@,
                (store.entries@.len() + 1) as nat,
            ) == Ok::<MeguScriptView, ReadErrorView>(s@),
            Err(e) => merge_spec(
                scripts_view(scripts@),
                store@,
                (store.entries@.len() + 1) as nat,
            ) == Err::<MeguScriptView, ReadErrorView>(e@),
        },
{
    let ghost sv = scripts_view(scripts@);
    let ghost fuel = (store.entries@.len() + 1) as nat;
    let mut result = MeguScript::default();
    let mut i: usize = 0;
    proof {
        assert(sv.subrange(0, 0) =~= Seq::<MeguScriptView>::empty());
        assert(combine_spec(sv.subrange(0, 0), store@, fuel) == Ok::<
            (Map<NamespaceView, MeguDropView>, Seq<NamespaceView>),
            ReadErrorView,
        >((result@.pools, result@.remove)));
    }
    while i < scripts.len()
        invariant
            i <= scripts@.len(),
            sv == scripts_view(scripts@),
            sv.len() == scripts@.len(),
            fuel == (store.entries@.len() + 1) as nat,
            forall|k: int| 0 <= k < scripts@.len() ==> (#[trigger] scripts@[k]).wf(),
            store.wf(),
            store.entries@.len() < usize::MAX,
            result.wf(),
            result.kind is None,
            result.extend is None,
            combine_spec(sv.subrange(0, i as int), store@, fuel) == Ok::<
                (Map<NamespaceView, MeguDropView>, Seq<NamespaceView>),
                ReadErrorView,
            >((result@.pools, result@.remove)),
        decreases scripts@.len() - i,
    {
        proof {
            assert(sv.subrange(0, i + 1).drop_last() =~= sv.subrange(0, i as int));
            assert(sv.subrange(0, i + 1).last() == sv[i as int]);
        }
        let compiled = match scripts[i].compile(store) {
            Ok(c) => c,
            Err(e) => {
                proof {
                    assert(combine_spec(sv.subrange(0, i + 1), store@, fuel) == Err::<
                        (Map<NamespaceView, MeguDropView>, Seq<NamespaceView>),
                        ReadErrorView,
                    >(e@));
                    lemma_combine_extend_err(sv, store@, fuel, i as int, e@);
                }
                return Err(e);
            },
        };
        compiled.merge(&mut result);
        i = i + 1;
    }
    proof {
        assert(sv.subrange(0, sv.len() as int) =~= sv);
    }
    let ghost acc_pools = result@.pools;
    let ghost acc_remove = result@.remove;
    result.remove_drops();
    proof {
        assert(result@ =~= merge_spec(sv, store@, fuel)->Ok_0);
    }
    Ok(result)
}

/// An error in a prefix of the combination is the error of every longer
/// prefix.
proof fn lemma_combine_extend_err(
    ss: Seq<MeguScriptView>,
    store: Map<NamespaceView, ScriptFormatView>,
    fuel: nat,
    i: int,
    e: ReadErrorView,
)
    requires
        0 <= i < ss.len(),
        combine_spec(ss.subrange(0, i + 1), store, fuel) == Err::<
            (Map<NamespaceView, MeguDropView>, Seq<NamespaceView>),
            ReadErrorView,
        >(e),
    ensures
        combine_spec(ss, store, fuel) == Err::<
            (Map<NamespaceView, MeguDropView>, Seq<NamespaceView>),
            ReadErrorView,
        >(e),
    decreases ss.len(),
{
    if i + 1 == ss.len() {
        assert(ss.subrange(0, i + 1) =~= ss);
    } else {
        assert(ss.drop_last() =~= ss.subrange(0, ss.len() - 1));
        assert(ss.subrange(0, ss.len() - 1).subrange(0, i + 1) =~= ss.subrange(0, i + 1));
        lemma_combine_extend_err(ss.subrange(0, ss.len() - 1), store, fuel, i, e);
    }
}

/// Combination is order-sensitive: when two scripts' compiled results
/// collide on a key with different drops that neither result removes,
/// the later script in the sequence wins, so the two orders yield
/// different results.
pub proof fn lemma_combine_order_sensitive(
    s1: MeguScriptView,
    s2: MeguScriptView,
    store: Map<NamespaceView, ScriptFormatView>,
    fuel: nat,
    c1: MeguScriptView,
    c2: MeguScriptView,
    k: NamespaceView,
)
    requires
        compile_spec(s1, store, fuel) == Ok::<MeguScriptView, ReadErrorView>(c1),
        compile_spec(s2, store, fuel) == Ok::<MeguScriptView, ReadErrorView>(c2),
        c1.pools.contains_key(k),
        c2.pools.contains_key(k),
        c1.pools[k] != c2.pools[k],
        !c1.remove.contains(k),
        !c2.remove.contains(k),
    ensures
        merge_spec(seq![s1, s2], store, fuel) matches Ok(m12) && m12.pools[k] == c2.pools[k],
        merge_spec(seq![s2, s1], store, fuel) matches Ok(m21) && m21.pools[k] == c1.pools[k],
        merge_spec(seq![s1, s2], store, fuel) != merge_spec(seq![s2, s1], store, fuel),
{
    lemma_combine_two(s1, s2, store, fuel, c1, c2, k);
    lemma_combine_two(s2, s1, store, fuel, c2, c1, k);
    let m12 = merge_spec(seq![s1, s2], store, fuel)->Ok_0;
    let m21 = merge_spec(seq![s2, s1], store, fuel)->Ok_0;
    assert(m12.pools[k] == c2.pools[k]);
    assert(m21.pools[k] == c1.pools[k]);
    assert(m12.pools != m21.pools);
}

/// Combining exactly two compilable scripts: the accumulated pools
/// prefer the second script's entry at a shared key, and a key that
/// neither result removes survives the removal pass.
proof fn lemma_combine_two(
    sa: MeguScriptView,
    sb: MeguScriptView,
    store: Map<NamespaceView, ScriptFormatView>,
    fuel: nat,
    ca: MeguScriptView,
    cb: MeguScriptView,
    k: NamespaceView,
)
    requires
        compile_spec(sa, store, fuel) == Ok::<MeguScriptView, ReadErrorView>(ca),
        compile_spec(sb, store, fuel) == Ok::<MeguScriptView, ReadErrorView>(cb),
        cb.pools.contains_key(k),
        !ca.remove.contains(k),
        !cb.remove.contains(k),
    ensures
        merge_spec(seq![sa, sb], store, fuel) matches Ok(m) && m.pools[k] == cb.pools[k]
            && m.pools.contains_key(k),
{
    let ss = seq![sa, sb];
    assert(ss.drop_last() =~= seq![sa]);
    assert(ss.last() == sb);
    assert(seq![sa].drop_last() =~= Seq::<MeguScriptView>::empty());
    assert(seq![sa].last() == sa);
    let acc1 = (Map::<NamespaceView, MeguDropView>::empty().union_prefer_right(ca.pools),
        Seq::<NamespaceView>::empty() + ca.remove);
    let acc2 = (acc1.0.union_prefer_right(cb.pools), acc1.1 + cb.remove);
    assert(combine_spec(Seq::<MeguScriptView>::empty(), store, fuel) == Ok::<
        (Map<NamespaceView, MeguDropView>, Seq<NamespaceView>),
        ReadErrorView,
    >((Map::empty(), Seq::empty())));
    assert(combine_spec(seq![sa], store, fuel) == Ok::<
        (Map<NamespaceView, MeguDropView>, Seq<NamespaceView>),
        ReadErrorView,
    >(acc1));
    assert(combine_spec(ss, store, fuel) == Ok::<
        (Map<NamespaceView, MeguDropView>, Seq<NamespaceView>),
        ReadErrorView,
    >(acc2));
    lemma_remove_fold_pools(acc2.0, acc2.1);
    assert(!acc2.1.contains(k)) by {
        if acc2.1.contains(k) {
            let i = choose|i: int| 0 <= i < acc2.1.len() && acc2.1[i] == k;
            if i < acc1.1.len() {
                assert(acc1.1[i] == (Seq::<NamespaceView>::empty() + ca.remove)[i]);
                assert(ca.remove[i] == k);
            } else {
                assert(cb.remove[i - acc1.1.len()] == k);
            }
        }
    }
    assert(acc2.0.contains_key(k) && acc2.0[k] == cb.pools[k]);
    let m = merge_spec(ss, store, fuel)->Ok_0;
    assert(m.pools == acc2.0.remove_keys(acc2.1.to_set()));
    assert(m.pools.contains_key(k));
    assert(m.pools[k] == cb.pools[k]);
}

} // verus!
