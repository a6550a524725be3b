//! The scan for the symbols of a package.
//!
//! The scan starts at the entry point and lists what its module binds. It
//! enters each module of the package once, and records every path by which a
//! module is reached. A module that no other one exports is listed beside the
//! symbols of the entry point as soon as a function turns up that stands in
//! its file.

use std::sync::Arc;
use ecow::EcoVec;
use vstd::prelude::*;
use vstd::string::*;
use crate::collections::{eco_clone, eco_join, eco_push, eco_texts};
use crate::package::{resides_in, FileId, FileIdView, PackageSpec, PackageSpecView};
use crate::symbols::{
    head_of, lemma_symbol_view, list_head, listed_by, symbol_views, SymbolInfo, SymbolInfoHead,
    SymbolView, ValueView,
};
use crate::table::Table;
use crate::text::{joined, views};
use crate::value::{ModuleValue, Value};

verus! {

/// A name and the value that a module binds to it.
#[derive(Debug)]
pub struct Binding {
    pub name: String,
    pub value: Arc<Value>,
}

/// The module that evaluating a file gives.
#[derive(Debug)]
pub struct Evaluated {
    /// The name of the module.
    pub name: String,
    /// The module as it is shown to a reader.
    pub repr: String,
}

/// What has been found out about the files of a package so far.
#[derive(Debug)]
pub struct Known {
    /// The files that were evaluated, each with its module or the message that
    /// says why it has none.
    pub evaluated: Vec<(FileId, Result<Evaluated, String>)>,
    /// The files whose bindings are known, in the order of the module's scope.
    pub scopes: Vec<(FileId, Vec<Binding>)>,
}

/// What the scan has to know before it can go on.
#[derive(Debug)]
pub enum Request {
    /// The module that evaluating the file gives.
    Evaluate(FileId),
    /// The bindings of the module of the file.
    Scope(FileId),
}

pub struct BindingView {
    pub name: Seq<char>,
    pub value: ValueView,
}

pub struct KnownView {
    pub evaluated: Seq<(FileIdView, Result<(Seq<char>, Seq<char>), Seq<char>>)>,
    pub scopes: Seq<(FileIdView, Seq<BindingView>)>,
}

pub enum RequestView {
    Evaluate(FileIdView),
    Scope(FileIdView),
}

impl View for Binding {
    type V = BindingView;

    open spec fn view(&self) -> BindingView {
        BindingView { name: self.name@, value: (*self.value)@ }
    }
}

/// The values behind some bindings.
pub open spec fn binding_views(bindings: Seq<Binding>) -> Seq<BindingView> {
    bindings.map_values(|binding: Binding| binding@)
}

/// The value behind the outcome of evaluating a file.
pub open spec fn evaluated_view(
    outcome: Result<Evaluated, String>,
) -> Result<(Seq<char>, Seq<char>), Seq<char>> {
    match outcome {
        Ok(module) => Ok((module.name@, module.repr@)),
        Err(message) => Err(message@),
    }
}

impl View for Known {
    type V = KnownView;

    open spec fn view(&self) -> KnownView {
        KnownView {
            evaluated: self.evaluated@.map_values(
                |entry: (FileId, Result<Evaluated, String>)| (entry.0@, evaluated_view(entry.1)),
            ),
            scopes: self.scopes@.map_values(
                |entry: (FileId, Vec<Binding>)| (entry.0@, binding_views(entry.1@)),
            ),
        }
    }
}

impl View for Request {
    type V = RequestView;

    open spec fn view(&self) -> RequestView {
        match self {
            Request::Evaluate(file) => RequestView::Evaluate(file@),
            Request::Scope(file) => RequestView::Scope(file@),
        }
    }
}

/// What is known under a file.
pub open spec fn lookup<T>(entries: Seq<(FileIdView, T)>, file: FileIdView) -> Option<T>
    decreases entries.len(),
{
    if entries.len() == 0 {
        None
    } else if entries[0].0 == file {
        Some(entries[0].1)
    } else {
        lookup(entries.skip(1), file)
    }
}

/// What a scan goes by: the package, the file of its entry point, and what is
/// known of its files.
pub struct ScanView {
    pub package: PackageSpecView,
    pub root: FileIdView,
    pub known: KnownView,
}

/// What a scan has gathered: the paths by which the modules were reached, and
/// the modules that no other one exports.
pub struct FoundView {
    pub aliases: Map<FileIdView, Seq<Seq<char>>>,
    pub extras: Seq<SymbolView>,
}

impl FoundView {
    /// The paths by which a module was reached.
    pub open spec fn paths(self, file: FileIdView) -> Seq<Seq<char>> {
        if self.aliases.contains_key(file) {
            self.aliases[file]
        } else {
            Seq::empty()
        }
    }

    /// With an entry for a module, which has no paths if it was not there.
    pub open spec fn entered(self, file: FileIdView) -> FoundView {
        FoundView { aliases: self.aliases.insert(file, self.paths(file)), ..self }
    }

    /// With one more path to a module.
    pub open spec fn reached(self, file: FileIdView, path: Seq<char>) -> FoundView {
        FoundView { aliases: self.aliases.insert(file, self.paths(file).push(path)), ..self }
    }

    /// With one more module that no other one exports.
    pub open spec fn with_extra(self, symbol: SymbolView) -> FoundView {
        FoundView { extras: self.extras.push(symbol), ..self }
    }

    /// Whether no path to a module and no entry was lost since `before`.
    pub open spec fn extends(self, before: FoundView) -> bool {
        &&& forall|file: FileIdView|
            #![trigger self.aliases.contains_key(file)]
            before.aliases.contains_key(file) ==> self.aliases.contains_key(file)
        &&& forall|file: FileIdView|
            #![trigger self.paths(file)]
            before.paths(file).is_prefix_of(self.paths(file))
        &&& before.extras.is_prefix_of(self.extras)
    }
}

/// How many of the known modules have not been entered.
pub open spec fn pending(
    scopes: Seq<(FileIdView, Seq<BindingView>)>,
    found: FoundView,
) -> nat
    decreases scopes.len(),
{
    if scopes.len() == 0 {
        0
    } else {
        pending(scopes.skip(1), found) + if found.paths(scopes[0].0).len() == 0 {
            1nat
        } else {
            0nat
        }
    }
}

pub proof fn lemma_pending_extends(
    scopes: Seq<(FileIdView, Seq<BindingView>)>,
    before: FoundView,
    after: FoundView,
)
    requires
        forall|file: FileIdView|
            before.paths(file).len() > 0 ==> #[trigger] after.paths(file).len() > 0,
    ensures
        pending(scopes, after) <= pending(scopes, before),
    decreases scopes.len(),
{
    if scopes.len() > 0 {
        lemma_pending_extends(scopes.skip(1), before, after);
        assert(before.paths(scopes[0].0).len() > 0 ==> after.paths(scopes[0].0).len() > 0);
    }
}

pub proof fn lemma_pending_entered(
    scopes: Seq<(FileIdView, Seq<BindingView>)>,
    found: FoundView,
    file: FileIdView,
)
    ensures
        pending(scopes, found.entered(file)) == pending(scopes, found),
{
    lemma_pending_extends(scopes, found, found.entered(file));
    lemma_pending_extends(scopes, found.entered(file), found);
}

pub proof fn lemma_pending_reached(
    scopes: Seq<(FileIdView, Seq<BindingView>)>,
    found: FoundView,
    file: FileIdView,
    path: Seq<char>,
)
    requires
        found.paths(file).len() == 0,
        lookup(scopes, file) is Some,
    ensures
        pending(scopes, found.reached(file, path)) < pending(scopes, found),
    decreases scopes.len(),
{
    let after = found.reached(file, path);
    lemma_pending_extends(scopes.skip(1), found, after);
    if scopes[0].0 != file {
        lemma_pending_reached(scopes.skip(1), found, file, path);
    }
}

/// The symbol of a value that a module in the file `site` binds to a name,
/// and what the scan has gathered once it is done with the value; or what it
/// has to know first.
pub open spec fn scan_value(
    scan: ScanView,
    found: FoundView,
    name: Seq<char>,
    path: Seq<Seq<char>>,
    site: Option<FileIdView>,
    value: ValueView,
) -> Result<(SymbolView, FoundView), RequestView>
    decreases pending(scan.known.scopes, found), if value is Module { 0nat } else { 1nat },
{
    let head = listed_by(head_of(name, value), value, site);
    let plain = SymbolView { head, children: Seq::empty() };
    match head.fid {
        Some(file) if resides_in(file, scan.package) => if value is Module {
            let reached = found.reached(file, joined(path, "."@));
            if found.paths(file).len() > 0 {
                Ok((plain, reached))
            } else {
                match lookup(scan.known.scopes, file) {
                    None => Err(RequestView::Scope(file)),
                    Some(bindings) => {
                        proof {
                            lemma_pending_reached(
                                scan.known.scopes,
                                found,
                                file,
                                joined(path, "."@),
                            );
                        }
                        match scan_bindings(scan, reached, bindings, path, file) {
                            Err(request) => Err(request),
                            Ok((children, after)) => Ok((SymbolView { head, children }, after)),
                        }
                    },
                }
            }
        } else {
            let entered = found.entered(file);
            if found.paths(file).len() > 0 {
                Ok((plain, entered))
            } else {
                match lookup(scan.known.evaluated, file) {
                    None => Err(RequestView::Evaluate(file)),
                    Some(Err(_)) => Ok((plain, entered)),
                    Some(Ok((module, repr))) => {
                        proof {
                            lemma_pending_entered(scan.known.scopes, found, file);
                        }
                        match scan_value(
                            scan,
                            entered,
                            module,
                            path.push("-"@).push(name),
                            Some(scan.root),
                            ValueView::Module { name: module, file: Some(file), repr },
                        ) {
                            Err(request) => Err(request),
                            Ok((extra, after)) => Ok((plain, after.with_extra(extra))),
                        }
                    },
                }
            }
        },
        _ => Ok((plain, found)),
    }
}

/// The symbols of the bindings of the module in a file, in order. No step
/// leaves more modules to enter than there were (`scan_keeps`), so the test of
/// that always succeeds.
pub open spec fn scan_bindings(
    scan: ScanView,
    found: FoundView,
    bindings: Seq<BindingView>,
    path: Seq<Seq<char>>,
    file: FileIdView,
) -> Result<(Seq<SymbolView>, FoundView), RequestView>
    decreases pending(scan.known.scopes, found), 2 + bindings.len(),
{
    if bindings.len() == 0 {
        Ok((Seq::empty(), found))
    } else {
        let first = bindings[0];
        match scan_value(scan, found, first.name, path.push(first.name), Some(file), first.value) {
            Err(request) => Err(request),
            Ok((symbol, next)) => if pending(scan.known.scopes, next) <= pending(
                scan.known.scopes,
                found,
            ) {
                match scan_bindings(scan, next, bindings.skip(1), path, file) {
                    Err(request) => Err(request),
                    Ok((symbols, after)) => Ok((seq![symbol] + symbols, after)),
                }
            } else {
                arbitrary()
            },
        }
    }
}

proof fn lemma_extends_trans(a: FoundView, b: FoundView, c: FoundView)
    requires
        b.extends(a),
        c.extends(b),
    ensures
        c.extends(a),
{
    assert forall|file: FileIdView| #![trigger c.paths(file)] a.paths(file).is_prefix_of(
        c.paths(file),
    ) by {
        assert(a.paths(file).is_prefix_of(b.paths(file)));
        assert(b.paths(file).is_prefix_of(c.paths(file)));
        let n = a.paths(file).len() as int;
        assert(c.paths(file).subrange(0, n) =~= b.paths(file).subrange(0, n));
    }
    assert forall|file: FileIdView|
        #![trigger c.aliases.contains_key(file)]
        a.aliases.contains_key(file) implies c.aliases.contains_key(file) by {
        assert(b.aliases.contains_key(file));
    }
    let n = a.extras.len() as int;
    assert(c.extras.subrange(0, n) =~= b.extras.subrange(0, n));
}

proof fn lemma_extends_pending(
    scopes: Seq<(FileIdView, Seq<BindingView>)>,
    before: FoundView,
    after: FoundView,
)
    requires
        after.extends(before),
    ensures
        pending(scopes, after) <= pending(scopes, before),
{
    assert forall|file: FileIdView| before.paths(file).len() > 0 implies #[trigger] after.paths(
        file,
    ).len() > 0 by {
        assert(before.paths(file).is_prefix_of(after.paths(file)));
    }
    lemma_pending_extends(scopes, before, after);
}

proof fn lemma_extends_steps(found: FoundView, file: FileIdView, path: Seq<char>)
    ensures
        found.extends(found),
        found.entered(file).extends(found),
        found.reached(file, path).extends(found),
{
    assert forall|f: FileIdView|
        #![trigger found.reached(file, path).paths(f)]
        found.paths(f).is_prefix_of(found.reached(file, path).paths(f)) by {
        let after = found.reached(file, path).paths(f);
        assert(after.subrange(0, found.paths(f).len() as int) =~= found.paths(f));
    }
    assert forall|f: FileIdView|
        #![trigger found.entered(file).paths(f)]
        found.paths(f).is_prefix_of(found.entered(file).paths(f)) by {
        let after = found.entered(file).paths(f);
        assert(after.subrange(0, found.paths(f).len() as int) =~= found.paths(f));
    }
    assert forall|f: FileIdView| #![trigger found.paths(f)] found.paths(f).is_prefix_of(
        found.paths(f),
    ) by {
        assert(found.paths(f).subrange(0, found.paths(f).len() as int) =~= found.paths(f));
    }
    assert(found.extras.subrange(0, found.extras.len() as int) =~= found.extras);
}

/// Nothing that the scan has gathered is lost while it goes on.
pub proof fn scan_keeps(
    scan: ScanView,
    found: FoundView,
    name: Seq<char>,
    path: Seq<Seq<char>>,
    site: Option<FileIdView>,
    value: ValueView,
)
    ensures
        scan_value(scan, found, name, path, site, value) matches Ok((_, after))
            ==> after.extends(found) && pending(scan.known.scopes, after) <= pending(
            scan.known.scopes,
            found,
        ),
    decreases pending(scan.known.scopes, found), if value is Module { 0nat } else { 1nat },
{
    let head = listed_by(head_of(name, value), value, site);
    let dotted = joined(path, "."@);
    if head.fid is Some && resides_in(head.fid->0, scan.package) {
        let file = head.fid->0;
        lemma_extends_steps(found, file, dotted);
        if value is Module {
            if found.paths(file).len() == 0 && lookup(scan.known.scopes, file) is Some {
                let bindings = lookup(scan.known.scopes, file)->0;
                let reached = found.reached(file, dotted);
                lemma_pending_reached(scan.known.scopes, found, file, dotted);
                scan_bindings_keeps(scan, reached, bindings, path, file);
                if let Ok((_, after)) = scan_bindings(scan, reached, bindings, path, file) {
                    lemma_extends_trans(found, reached, after);
                }
            }
        } else {
            let entered = found.entered(file);
            lemma_pending_entered(scan.known.scopes, found, file);
            if found.paths(file).len() == 0 {
                if let Some(Ok((module, repr))) = lookup(scan.known.evaluated, file) {
                    let inner = path.push("-"@).push(name);
                    let unexported = ValueView::Module { name: module, file: Some(file), repr };
                    scan_keeps(scan, entered, module, inner, Some(scan.root), unexported);
                    if let Ok((extra, after)) = scan_value(
                        scan,
                        entered,
                        module,
                        inner,
                        Some(scan.root),
                        unexported,
                    ) {
                        lemma_extends_trans(found, entered, after);
                        let last = after.with_extra(extra);
                        assert(last.extends(after)) by {
                            lemma_extends_steps(after, file, dotted);
                            assert(last.extras.subrange(0, after.extras.len() as int)
                                =~= after.extras);
                            assert forall|f: FileIdView|
                                #![trigger last.paths(f)]
                                after.paths(f).is_prefix_of(last.paths(f)) by {
                                assert(last.paths(f) == after.paths(f));
                                assert(after.paths(f).is_prefix_of(after.paths(f)));
                            }
                        }
                        lemma_extends_trans(found, after, last);
                    }
                }
            }
        }
        if let Ok((_, after)) = scan_value(scan, found, name, path, site, value) {
            lemma_extends_pending(scan.known.scopes, found, after);
        }
    } else {
        lemma_extends_steps(found, scan.root, dotted);
    }
}

/// Nothing that the scan has gathered is lost while it goes through bindings.
pub proof fn scan_bindings_keeps(
    scan: ScanView,
    found: FoundView,
    bindings: Seq<BindingView>,
    path: Seq<Seq<char>>,
    file: FileIdView,
)
    ensures
        scan_bindings(scan, found, bindings, path, file) matches Ok((symbols, after))
            ==> after.extends(found) && symbols.len() == bindings.len(),
    decreases pending(scan.known.scopes, found), 2 + bindings.len(),
{
    if bindings.len() == 0 {
        lemma_extends_steps(found, file, Seq::empty());
    } else {
        let first = bindings[0];
        let inner = path.push(first.name);
        scan_keeps(scan, found, first.name, inner, Some(file), first.value);
        if let Ok((_, next)) = scan_value(
            scan,
            found,
            first.name,
            inner,
            Some(file),
            first.value,
        ) {
            scan_bindings_keeps(scan, next, bindings.skip(1), path, file);
            if let Ok((_, after)) = scan_bindings(scan, next, bindings.skip(1), path, file) {
                lemma_extends_trans(found, next, after);
            }
        }
    }
}

/// What a scan goes by.
pub struct ScanSymbolCtx<'a> {
    /// The package whose symbols are listed.
    pub package: &'a PackageSpec,
    /// The file of its entry point.
    pub root: &'a FileId,
    /// What is known of its files.
    pub known: &'a Known,
}

impl<'a> View for ScanSymbolCtx<'a> {
    type V = ScanView;

    open spec fn view(&self) -> ScanView {
        ScanView { package: self.package@, root: self.root@, known: self.known@ }
    }
}

/// What a scan has gathered.
pub struct Found {
    /// The paths by which the modules were reached.
    pub aliases: Table<FileId, Vec<String>>,
    /// The modules that no other one exports.
    pub extras: Vec<SymbolInfo>,
}

/// The paths behind the texts of some files.
pub open spec fn alias_view(
    aliases: Map<FileIdView, Vec<String>>,
) -> Map<FileIdView, Seq<Seq<char>>> {
    aliases.map_values(|paths: Vec<String>| views(paths@))
}

impl View for Found {
    type V = FoundView;

    open spec fn view(&self) -> FoundView {
        FoundView { aliases: alias_view(self.aliases@), extras: symbol_views(self.extras@) }
    }
}

impl Found {
    /// Nothing.
    pub fn new() -> (found: Found)
        ensures
            found@ == (FoundView { aliases: Map::empty(), extras: Seq::empty() }),
    {
        let found: Found = Found { aliases: Table::new(), extras: Vec::new() };
        proof {
            assert(found@.aliases =~= Map::empty());
            assert(found@.extras =~= Seq::empty());
        }
        found
    }

    fn take_paths(&mut self, file: &FileId) -> (paths: Vec<String>)
        ensures
            views(paths@) == old(self)@.paths(file@),
            final(self)@.aliases == old(self)@.aliases.remove(file@),
            final(self)@.extras == old(self)@.extras,
    {
        let taken: Option<Vec<String>> = self.aliases.take(file);
        assert(self@.aliases =~= old(self)@.aliases.remove(file@));
        match taken {
            Some(paths) => paths,
            None => {
                let paths: Vec<String> = Vec::new();
                assert(views(paths@) =~= Seq::empty());
                paths
            },
        }
    }

    fn put_paths(&mut self, file: &FileId, paths: Vec<String>)
        ensures
            final(self)@.aliases == old(self)@.aliases.insert(file@, views(paths@)),
            final(self)@.extras == old(self)@.extras,
    {
        let ghost stored = paths;
        self.aliases.insert(file.copy(), paths);
        assert(self@.aliases =~= old(self)@.aliases.insert(file@, views(stored@)));
    }

    /// Makes sure that a module has an entry, and says whether no path to it
    /// is known.
    pub fn enter(&mut self, file: &FileId) -> (unreached: bool)
        ensures
            final(self)@ == old(self)@.entered(file@),
            unreached == (old(self)@.paths(file@).len() == 0),
    {
        let paths: Vec<String> = self.take_paths(file);
        assert(views(paths@).len() == paths@.len());
        let unreached: bool = paths.len() == 0;
        self.put_paths(file, paths);
        assert(self@.aliases =~= old(self)@.entered(file@).aliases);
        unreached
    }

    /// Records a path to a module, and says whether it is the first one.
    pub fn reach(&mut self, file: &FileId, path: String) -> (fresh: bool)
        ensures
            final(self)@ == old(self)@.reached(file@, path@),
            fresh == (old(self)@.paths(file@).len() == 0),
    {
        let mut paths: Vec<String> = self.take_paths(file);
        assert(views(paths@).len() == paths@.len());
        let fresh: bool = paths.len() == 0;
        let ghost before = views(paths@);
        let ghost added = path@;
        paths.push(path);
        assert(views(paths@) =~= before.push(added));
        self.put_paths(file, paths);
        assert(self@.aliases =~= old(self)@.reached(file@, added).aliases);
        fresh
    }
}

impl Known {
    /// What evaluating a file gave.
    pub fn find_evaluated(&self, file: &FileId) -> (res: Option<&Result<Evaluated, String>>)
        ensures
            match res {
                Some(outcome) => lookup(self@.evaluated, file@) == Some(evaluated_view(*outcome)),
                None => lookup(self@.evaluated, file@) is None,
            },
    {
        let ghost all = self@.evaluated;
        let mut i: usize = 0;
        assert(all.skip(0) =~= all);
        while i < self.evaluated.len()
            invariant
                i <= self.evaluated.len(),
                all == self@.evaluated,
                lookup(all, file@) == lookup(all.skip(i as int), file@),
            decreases self.evaluated.len() - i,
        {
            assert(all.skip(i as int).skip(1) =~= all.skip(i + 1));
            assert(all.skip(i as int)[0] == all[i as int]);
            if self.evaluated[i].0.same(file) {
                return Some(&self.evaluated[i].1);
            }
            i = i + 1;
        }
        None
    }

    /// The bindings of the module in a file.
    pub fn find_scope(&self, file: &FileId) -> (res: Option<&Vec<Binding>>)
        ensures
            match res {
                Some(bindings) => lookup(self@.scopes, file@) == Some(binding_views(bindings@)),
                None => lookup(self@.scopes, file@) is None,
            },
    {
        let ghost all = self@.scopes;
        let mut i: usize = 0;
        assert(all.skip(0) =~= all);
        while i < self.scopes.len()
            invariant
                i <= self.scopes.len(),
                all == self@.scopes,
                lookup(all, file@) == lookup(all.skip(i as int), file@),
            decreases self.scopes.len() - i,
        {
            assert(all.skip(i as int).skip(1) =~= all.skip(i + 1));
            assert(all.skip(i as int)[0] == all[i as int]);
            if self.scopes[i].0.same(file) {
                return Some(&self.scopes[i].1);
            }
            i = i + 1;
        }
        None
    }
}

/// The module of a file as a value.
pub fn module_value(file: &FileId, module: &Evaluated) -> (value: Arc<Value>)
    ensures
        (*value)@ == (ValueView::Module {
            name: module.name@,
            file: Some(file@),
            repr: module.repr@,
        }),
{
    Arc::new(
        Value::Module(
            ModuleValue {
                name: module.name.clone(),
                file: Some(file.copy()),
                repr: module.repr.clone(),
            },
        ),
    )
}

fn leaf(head: SymbolInfoHead) -> (symbol: SymbolInfo)
    ensures
        symbol@ == (SymbolView { head: head@, children: Seq::empty() }),
{
    let symbol: SymbolInfo = SymbolInfo { head, children: Vec::new() };
    assert(symbol@.children =~= Seq::empty());
    symbol
}

/// Whether an outcome of the scan is the one that the rules give.
pub open spec fn sym_agrees(
    expected: Result<(SymbolView, FoundView), RequestView>,
    res: Result<SymbolInfo, Request>,
    found: FoundView,
) -> bool {
    match expected {
        Ok((symbol, after)) => res is Ok && res->Ok_0@ == symbol && found == after,
        Err(request) => res is Err && res->Err_0@ == request,
    }
}

/// Whether an outcome of the scan of some bindings is the one that the rules
/// give.
pub open spec fn syms_agree(
    expected: Result<(Seq<SymbolView>, FoundView), RequestView>,
    res: Result<Vec<SymbolInfo>, Request>,
    found: FoundView,
) -> bool {
    match expected {
        Ok((symbols, after)) => res is Ok && symbol_views(res->Ok_0@) == symbols && found == after,
        Err(request) => res is Err && res->Err_0@ == request,
    }
}

impl<'a> ScanSymbolCtx<'a> {
    /// The symbol of a value that a module binds to a name, or what has to be
    /// known first.
    pub fn sym(
        &self,
        found: &mut Found,
        name: &str,
        path: &EcoVec<String>,
        site: Option<&FileId>,
        value: &Arc<Value>,
    ) -> (res: Result<SymbolInfo, Request>)
        ensures
            sym_agrees(
                scan_value(
                    self@,
                    old(found)@,
                    name@,
                    eco_texts(*path),
                    match site {
                        Some(site) => Some(site@),
                        None => None,
                    },
                    (**value)@,
                ),
                res,
                final(found)@,
            ),
        decreases
            pending(self@.known.scopes, old(found)@),
            if (**value)@ is Module { 0nat } else { 1nat },
    {
        let head: SymbolInfoHead = list_head(name, value, site);
        let is_module: bool = match &**value {
            Value::Module(_) => true,
            _ => false,
        };
        let owner: Option<FileId> = match &head.fid {
            Some(file) => if file.in_package(self.package) {
                Some(file.copy())
            } else {
                None
            },
            None => None,
        };
        let file: FileId = match owner {
            Some(file) => file,
            None => {
                return Ok(leaf(head));
            },
        };
        if is_module {
            let dotted: String = eco_join(path, ".");
            let ghost before = found@;
            let fresh: bool = found.reach(&file, dotted);
            if !fresh {
                return Ok(leaf(head));
            }
            let bindings: &Vec<Binding> = match self.known.find_scope(&file) {
                Some(bindings) => bindings,
                None => {
                    return Err(Request::Scope(file));
                },
            };
            proof {
                lemma_pending_reached(
                    self@.known.scopes,
                    before,
                    file@,
                    joined(eco_texts(*path), "."@),
                );
            }
            match self.syms(found, bindings, path, &file) {
                Ok(children) => {
                    let symbol: SymbolInfo = SymbolInfo { head, children };
                    proof {
                        lemma_symbol_view(symbol);
                    }
                    Ok(symbol)
                },
                Err(request) => Err(request),
            }
        } else {
            let ghost before = found@;
            let unreached: bool = found.enter(&file);
            if unreached {
                match self.known.find_evaluated(&file) {
                    None => {
                        return Err(Request::Evaluate(file));
                    },
                    Some(Err(_)) => {},
                    Some(Ok(module)) => {
                        proof {
                            lemma_pending_entered(self@.known.scopes, before, file@);
                        }
                        let mut inner: EcoVec<String> = eco_clone(path);
                        eco_push(&mut inner, "-".to_owned());
                        eco_push(&mut inner, name.to_owned());
                        let unexported: Arc<Value> = module_value(&file, module);
                        match self.sym(
                            found,
                            module.name.as_str(),
                            &inner,
                            Some(self.root),
                            &unexported,
                        ) {
                            Ok(extra) => {
                                let ghost extras = symbol_views(found.extras@);
                                let ghost added = extra@;
                                found.extras.push(extra);
                                assert(symbol_views(found.extras@) =~= extras.push(added));
                            },
                            Err(request) => {
                                return Err(request);
                            },
                        }
                    },
                }
            }
            Ok(leaf(head))
        }
    }

    /// The symbols of the bindings of the module in a file, or what has to be
    /// known first.
    fn syms(
        &self,
        found: &mut Found,
        bindings: &Vec<Binding>,
        path: &EcoVec<String>,
        file: &FileId,
    ) -> (res: Result<Vec<SymbolInfo>, Request>)
        ensures
            syms_agree(
                scan_bindings(
                    self@,
                    old(found)@,
                    binding_views(bindings@),
                    eco_texts(*path),
                    file@,
                ),
                res,
                final(found)@,
            ),
        decreases pending(self@.known.scopes, old(found)@), 2 + bindings@.len(),
    {
        let ghost all = binding_views(bindings@);
        let ghost start = found@;
        let ghost expected = scan_bindings(self@, start, all, eco_texts(*path), file@);
        let mut symbols: Vec<SymbolInfo> = Vec::new();
        let mut i: usize = 0;
        proof {
            assert(all.skip(0) =~= all);
            assert(symbol_views(symbols@) =~= Seq::empty());
            assert(expected matches Ok((list, _)) ==> list =~= Seq::<SymbolView>::empty() + list);
        }
        while i < bindings.len()
            invariant
                i <= bindings.len(),
                all == binding_views(bindings@),
                start == old(found)@,
                expected == scan_bindings(self@, start, all, eco_texts(*path), file@),
                pending(self@.known.scopes, found@) <= pending(self@.known.scopes, start),
                match scan_bindings(
                    self@,
                    found@,
                    all.skip(i as int),
                    eco_texts(*path),
                    file@,
                ) {
                    Ok((rest, after)) => expected == Ok::<
                        (Seq<SymbolView>, FoundView),
                        RequestView,
                    >((symbol_views(symbols@) + rest, after)),
                    Err(request) => expected == Err::<
                        (Seq<SymbolView>, FoundView),
                        RequestView,
                    >(request),
                },
            decreases bindings.len() - i,
        {
            let binding: &Binding = &bindings[i];
            let mut inner: EcoVec<String> = eco_clone(path);
            eco_push(&mut inner, binding.name.clone());
            let ghost before = found@;
            let ghost done = symbol_views(symbols@);
            proof {
                assert(all.skip(i as int)[0] == binding@);
                assert(all.skip(i as int).skip(1) =~= all.skip(i + 1));
                scan_keeps(
                    self@,
                    before,
                    binding.name@,
                    eco_texts(inner),
                    Some(file@),
                    binding@.value,
                );
            }
            match self.sym(found, binding.name.as_str(), &inner, Some(file), &binding.value) {
                Ok(symbol) => {
                    let ghost added = symbol@;
                    symbols.push(symbol);
                    proof {
                        assert(symbol_views(symbols@) =~= done.push(added));
                        if let Ok((rest, after)) = scan_bindings(
                            self@,
                            found@,
                            all.skip(i + 1),
                            eco_texts(*path),
                            file@,
                        ) {
                            assert(done + (seq![added] + rest) =~= symbol_views(symbols@) + rest);
                        }
                    }
                },
                Err(request) => {
                    return Err(request);
                },
            }
            i = i + 1;
        }
        assert(all.skip(i as int) =~= Seq::empty());
        assert(symbol_views(symbols@) + Seq::<SymbolView>::empty() =~= symbol_views(symbols@));
        Ok(symbols)
    }

    /// The symbol of the module of a file that is reached by the given path,
    /// or what has to be known first.
    pub fn module_sym(
        &self,
        found: &mut Found,
        path: &EcoVec<String>,
        file: &FileId,
        module: &Evaluated,
    ) -> (res: Result<SymbolInfo, Request>)
        ensures
            sym_agrees(
                scan_value(
                    self@,
                    old(found)@,
                    module.name@,
                    eco_texts(*path),
                    Some(self@.root),
                    (ValueView::Module {
                        name: module.name@,
                        file: Some(file@),
                        repr: module.repr@,
                    }),
                ),
                res,
                final(found)@,
            ),
    {
        let value: Arc<Value> = module_value(file, module);
        self.sym(found, module.name.as_str(), path, Some(self.root), &value)
    }
}

} // verus!
