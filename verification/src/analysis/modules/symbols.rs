//! The module symbol index: every importable declaration of every module,
//! keyed by module name and then by symbol name.
use vstd::prelude::*;

use crate::diagnostic::{diag_view, diag_views, sort_diagnostics, sorted_from, diagnostics_sorted, DiagView, Diagnostic, DiagnosticSeverity};
use crate::parsed::{
    ExternalDeclaration, Flow, FlowArgument, Module, Object, Story, StructField, TypeName,
};
use crate::source::SourceSpan;
use crate::text::{concat3, owned, seq_char_less, str_less};
use crate::diagnostic::{lemma_same_elements, lemma_seq_char_less_irreflexive};

verus! {

#[derive(Debug, Clone, Copy, PartialEq, Eq, Structural)]
pub enum ModuleSymbolKind {
    Knot,
    Function,
    Constant,
    GlobalVariable,
    Struct,
    Enum,
    External,
}

pub open spec fn kind_display(kind: ModuleSymbolKind) -> Seq<char> {
    match kind {
        ModuleSymbolKind::Knot => "knot"@,
        ModuleSymbolKind::Function => "function"@,
        ModuleSymbolKind::Constant => "constant"@,
        ModuleSymbolKind::GlobalVariable => "global variable"@,
        ModuleSymbolKind::Struct => "struct"@,
        ModuleSymbolKind::Enum => "enum"@,
        ModuleSymbolKind::External => "external"@,
    }
}

impl ModuleSymbolKind {
    /// How the kind is named in messages.
    pub fn display_name(self) -> (r: &'static str)
        ensures
            r@ == kind_display(self),
    {
        match self {
            ModuleSymbolKind::Knot => "knot",
            ModuleSymbolKind::Function => "function",
            ModuleSymbolKind::Constant => "constant",
            ModuleSymbolKind::GlobalVariable => "global variable",
            ModuleSymbolKind::Struct => "struct",
            ModuleSymbolKind::Enum => "enum",
            ModuleSymbolKind::External => "external",
        }
    }
}

/// A parameter of a flow or external signature.
#[derive(Debug, Clone, PartialEq, Eq)]
pub struct ModuleParameter {
    pub name: String,
    pub declared_type: Option<TypeName>,
}

/// A flow or external signature.
#[derive(Debug, Clone, PartialEq, Eq)]
pub struct ModuleSignature {
    pub parameters: Vec<ModuleParameter>,
    pub return_type: TypeName,
    pub has_typed_signature: bool,
}

/// A field of a struct symbol.
#[derive(Debug, Clone, PartialEq, Eq)]
pub struct ModuleStructField {
    pub name: String,
    pub field_type: TypeName,
    pub span: SourceSpan,
}

/// One importable declaration of a module.
#[derive(Debug, Clone, PartialEq, Eq)]
pub struct ModuleSymbol {
    pub module: String,
    pub name: String,
    pub kind: ModuleSymbolKind,
    pub span: SourceSpan,
    pub declared_type: Option<TypeName>,
    pub signature: Option<ModuleSignature>,
    pub fields: Vec<ModuleStructField>,
}

// ---------------------------------------------------------------------------
// Mathematical views.

pub struct ParameterView {
    pub name: Seq<char>,
    pub declared_type: Option<TypeName>,
}

pub struct SignatureView {
    pub parameters: Seq<ParameterView>,
    pub return_type: TypeName,
    pub has_typed_signature: bool,
}

pub struct FieldView {
    pub name: Seq<char>,
    pub field_type: TypeName,
    pub span: SourceSpan,
}

pub struct SymbolView {
    pub module: Seq<char>,
    pub name: Seq<char>,
    pub kind: ModuleSymbolKind,
    pub span: SourceSpan,
    pub declared_type: Option<TypeName>,
    pub signature: Option<SignatureView>,
    pub fields: Seq<FieldView>,
}

impl ModuleParameter {
    pub open spec fn view(&self) -> ParameterView {
        ParameterView { name: self.name@, declared_type: self.declared_type }
    }

    pub fn name(&self) -> (r: &str)
        ensures
            r@ == self.name@,
    {
        self.name.as_str()
    }

    pub fn declared_type(&self) -> (r: Option<&TypeName>)
        ensures
            match r {
                Some(t) => self.declared_type == Some(*t),
                None => self.declared_type is None,
            },
    {
        self.declared_type.as_ref()
    }
}

impl ModuleSignature {
    pub open spec fn view(&self) -> SignatureView {
        SignatureView {
            parameters: self.parameters@.map_values(|p: ModuleParameter| p.view()),
            return_type: self.return_type,
            has_typed_signature: self.has_typed_signature,
        }
    }

    pub fn parameters(&self) -> (r: &Vec<ModuleParameter>)
        ensures
            *r == self.parameters,
    {
        &self.parameters
    }

    pub fn return_type(&self) -> (r: &TypeName)
        ensures
            *r == self.return_type,
    {
        &self.return_type
    }

    pub fn has_typed_signature(&self) -> (r: bool)
        ensures
            r == self.has_typed_signature,
    {
        self.has_typed_signature
    }
}

impl ModuleStructField {
    pub open spec fn view(&self) -> FieldView {
        FieldView { name: self.name@, field_type: self.field_type, span: self.span }
    }

    pub fn name(&self) -> (r: &str)
        ensures
            r@ == self.name@,
    {
        self.name.as_str()
    }

    pub fn field_type(&self) -> (r: &TypeName)
        ensures
            *r == self.field_type,
    {
        &self.field_type
    }

    pub fn span(&self) -> (r: &SourceSpan)
        ensures
            *r == self.span,
    {
        &self.span
    }
}

pub open spec fn option_signature_view(s: Option<ModuleSignature>) -> Option<SignatureView> {
    match s {
        Some(sig) => Some(sig.view()),
        None => None,
    }
}

impl ModuleSymbol {
    pub open spec fn view(&self) -> SymbolView {
        SymbolView {
            module: self.module@,
            name: self.name@,
            kind: self.kind,
            span: self.span,
            declared_type: self.declared_type,
            signature: option_signature_view(self.signature),
            fields: self.fields@.map_values(|f: ModuleStructField| f.view()),
        }
    }

    pub fn module(&self) -> (r: &str)
        ensures
            r@ == self.module@,
    {
        self.module.as_str()
    }

    pub fn name(&self) -> (r: &str)
        ensures
            r@ == self.name@,
    {
        self.name.as_str()
    }

    pub fn kind(&self) -> (r: ModuleSymbolKind)
        ensures
            r == self.kind,
    {
        self.kind
    }

    pub fn span(&self) -> (r: &SourceSpan)
        ensures
            *r == self.span,
    {
        &self.span
    }

    pub fn declared_type(&self) -> (r: Option<&TypeName>)
        ensures
            match r {
                Some(t) => self.declared_type == Some(*t),
                None => self.declared_type is None,
            },
    {
        self.declared_type.as_ref()
    }

    pub fn signature(&self) -> (r: Option<&ModuleSignature>)
        ensures
            match r {
                Some(x) => self.signature == Some(*x),
                None => self.signature is None,
            },
    {
        self.signature.as_ref()
    }

    pub fn fields(&self) -> (r: &Vec<ModuleStructField>)
        ensures
            *r == self.fields,
    {
        &self.fields
    }
}

// ---------------------------------------------------------------------------
// What a module declares.

pub open spec fn argument_parameter_view(a: FlowArgument) -> ParameterView {
    ParameterView { name: a.name@, declared_type: a.declared_type }
}

pub open spec fn flow_signature_view(flow: Flow) -> SignatureView {
    SignatureView {
        parameters: flow.arguments@.map_values(|a: FlowArgument| argument_parameter_view(a)),
        return_type: flow.return_type,
        has_typed_signature: flow.has_typed_signature,
    }
}

/// An external's parameters pair each argument name with its type; extra
/// names or types without a partner are dropped.
pub open spec fn external_signature_view(e: ExternalDeclaration) -> SignatureView {
    SignatureView {
        parameters: Seq::new(
            if e.argument_names@.len() <= e.argument_types@.len() {
                e.argument_names@.len()
            } else {
                e.argument_types@.len()
            },
            |i: int| ParameterView { name: e.argument_names@[i]@, declared_type: Some(e.argument_types@[i]) },
        ),
        return_type: e.return_type,
        has_typed_signature: true,
    }
}

pub open spec fn field_view(f: StructField) -> FieldView {
    FieldView { name: f.name@, field_type: f.field_type, span: f.span }
}

pub open spec fn plain_symbol(
    module: Seq<char>,
    name: Seq<char>,
    kind: ModuleSymbolKind,
    span: SourceSpan,
) -> SymbolView {
    SymbolView {
        module,
        name,
        kind,
        span,
        declared_type: None,
        signature: None,
        fields: Seq::empty(),
    }
}

/// The symbol that a top-level object of a module's weave declares, if any:
/// constants, global variables, structs, enums and externals.
pub open spec fn declaration_view(module: Seq<char>, object: Object) -> Option<SymbolView> {
    match object {
        Object::ConstantDeclaration(d) => Some(
            SymbolView {
                declared_type: Some(d.declared_type),
                ..plain_symbol(module, d.name@, ModuleSymbolKind::Constant, d.span)
            },
        ),
        Object::VariableAssignment(a) => if a.kind == crate::parsed::AssignmentKind::Global {
            Some(
                SymbolView {
                    declared_type: a.declared_type,
                    ..plain_symbol(module, a.name@, ModuleSymbolKind::GlobalVariable, a.span)
                },
            )
        } else {
            None
        },
        Object::StructDeclaration(d) => Some(
            SymbolView {
                fields: d.fields@.map_values(|f: StructField| field_view(f)),
                ..plain_symbol(module, d.name@, ModuleSymbolKind::Struct, d.span)
            },
        ),
        Object::EnumDeclaration(d) => Some(
            plain_symbol(module, d.name@, ModuleSymbolKind::Enum, d.span),
        ),
        Object::ExternalDeclaration(e) => Some(
            SymbolView {
                signature: Some(external_signature_view(e)),
                ..plain_symbol(module, e.name@, ModuleSymbolKind::External, e.span)
            },
        ),
        _ => None,
    }
}

/// The symbols that the objects `objects` declare, in order.
pub open spec fn weave_declarations(module: Seq<char>, objects: Seq<Object>) -> Seq<SymbolView>
    decreases objects.len(),
{
    if objects.len() == 0 {
        Seq::empty()
    } else {
        let earlier = weave_declarations(module, objects.drop_last());
        match declaration_view(module, objects.last()) {
            Some(s) => earlier.push(s),
            None => earlier,
        }
    }
}

/// A top-level flow declares a function (functions and internal flows) or
/// a knot, with its signature.
pub open spec fn flow_declaration(module: Seq<char>, flow: Flow) -> SymbolView {
    SymbolView {
        signature: Some(flow_signature_view(flow)),
        ..plain_symbol(
            module,
            flow.name@,
            if flow.is_function {
                ModuleSymbolKind::Function
            } else {
                ModuleSymbolKind::Knot
            },
            flow.span,
        )
    }
}

/// Everything a module declares: its weave declarations, then its flows.
pub open spec fn module_declarations(m: Module) -> Seq<SymbolView> {
    weave_declarations(m.name@, m.weave.content@) + m.flows@.map_values(
        |f: Flow| flow_declaration(m.name@, f),
    )
}

/// The declarations of all modules, in module order.
pub open spec fn story_declarations(modules: Seq<Module>) -> Seq<SymbolView>
    decreases modules.len(),
{
    if modules.len() == 0 {
        Seq::empty()
    } else {
        story_declarations(modules.drop_last()) + module_declarations(modules.last())
    }
}

/// The declarations in `decls` of symbol `name` in module `module`, in order.
pub open spec fn select_named(decls: Seq<SymbolView>, module: Seq<char>, name: Seq<char>) -> Seq<
    SymbolView,
>
    decreases decls.len(),
{
    if decls.len() == 0 {
        Seq::empty()
    } else {
        let earlier = select_named(decls.drop_last(), module, name);
        if decls.last().module == module && decls.last().name == name {
            earlier.push(decls.last())
        } else {
            earlier
        }
    }
}

/// Whether some module in `modules` is named `name`.
pub open spec fn declares_module(modules: Seq<Module>, name: Seq<char>) -> bool {
    exists|i: int| 0 <= i < modules.len() && (#[trigger] modules[i]).name@ == name
}

// ---------------------------------------------------------------------------
// The index.

/// The symbols of one name in one module, in declaration order.
#[derive(Debug, Clone, PartialEq, Eq)]
pub struct NameEntry {
    pub name: String,
    pub symbols: Vec<ModuleSymbol>,
}

/// The names declared by one module, sorted.
#[derive(Debug, Clone, PartialEq, Eq)]
pub struct ModuleEntry {
    pub module: String,
    pub names: Vec<NameEntry>,
}

/// Every importable declaration, keyed by module and then by name. A
/// module that declares nothing is still present.
#[derive(Debug, Clone, PartialEq, Eq)]
pub struct ModuleSymbolIndex {
    pub modules: Vec<ModuleEntry>,
}

impl Default for ModuleSymbolIndex {
    /// The declarations of no module.
    fn default() -> (r: Self)
        ensures
            r.modules@.len() == 0,
    {
        ModuleSymbolIndex { modules: Vec::new() }
    }
}

pub open spec fn names_sorted(names: Seq<NameEntry>) -> bool {
    forall|i: int, j: int| 0 <= i < j < names.len() ==> seq_char_less(names[i].name@, names[j].name@)
}

pub open spec fn modules_sorted(modules: Seq<ModuleEntry>) -> bool {
    forall|i: int, j: int| 0 <= i < j < modules.len() ==> seq_char_less(modules[i].module@, modules[j].module@)
}

pub open spec fn symbols_view(symbols: Seq<ModuleSymbol>) -> Seq<SymbolView> {
    symbols.map_values(|s: ModuleSymbol| s.view())
}

/// The symbols named `name` in the sorted name list `names`.
pub open spec fn names_lookup(names: Seq<NameEntry>, name: Seq<char>) -> Seq<SymbolView> {
    if exists|j: int| 0 <= j < names.len() && (#[trigger] names[j]).name@ == name {
        symbols_view(names[choose|j: int| 0 <= j < names.len() && (#[trigger] names[j]).name@ == name].symbols@)
    } else {
        Seq::empty()
    }
}

impl ModuleSymbolIndex {
    pub open spec fn wf(&self) -> bool {
        &&& modules_sorted(self.modules@)
        &&& forall|i: int| 0 <= i < self.modules@.len() ==> names_sorted(#[trigger] self.modules@[i].names@)
    }

    /// Whether the index has an entry for `module`.
    pub open spec fn has_module(&self, module: Seq<char>) -> bool {
        exists|i: int| 0 <= i < self.modules@.len() && (#[trigger] self.modules@[i]).module@ == module
    }

    pub open spec fn module_pos(&self, module: Seq<char>) -> int {
        choose|i: int| 0 <= i < self.modules@.len() && (#[trigger] self.modules@[i]).module@ == module
    }

    /// The symbols named `name` declared by `module`, in declaration order.
    pub open spec fn named(&self, module: Seq<char>, name: Seq<char>) -> Seq<SymbolView> {
        if self.has_module(module) {
            names_lookup(self.modules@[self.module_pos(module)].names@, name)
        } else {
            Seq::empty()
        }
    }

    /// The index of no module.
    pub fn empty() -> (r: Self)
        ensures
            r.wf(),
            forall|m: Seq<char>| !r.has_module(m),
    {
        ModuleSymbolIndex { modules: Vec::new() }
    }

    /// Where `module` stands, or where it would be inserted.
    fn find_module(&self, module: &str) -> (r: (bool, usize))
        requires
            self.wf(),
        ensures
            r.1 <= self.modules@.len(),
            r.0 ==> r.1 < self.modules@.len() && self.modules@[r.1 as int].module@ == module@,
            !r.0 ==> forall|k: int| 0 <= k < r.1 ==> seq_char_less(#[trigger] self.modules@[k].module@, module@),
            !r.0 ==> forall|k: int| r.1 <= k < self.modules@.len() ==> seq_char_less(module@, #[trigger] self.modules@[k].module@),
    {
        let mut pos: usize = 0;
        while pos < self.modules.len()
            invariant
                self.wf(),
                pos <= self.modules@.len(),
                forall|k: int| 0 <= k < pos ==> seq_char_less(#[trigger] self.modules@[k].module@, module@),
            decreases self.modules.len() - pos,
        {
            if str_less(module, self.modules[pos].module.as_str()) {
                proof {
                    assert forall|k: int| pos <= k < self.modules@.len() implies seq_char_less(module@, #[trigger] self.modules@[k].module@) by {
                        if k > pos {
                            crate::diagnostic::lemma_seq_char_less_transitive(module@, self.modules@[pos as int].module@, self.modules@[k].module@);
                        }
                    }
                }
                return (false, pos);
            }
            if crate::text::str_eq(module, self.modules[pos].module.as_str()) {
                return (true, pos);
            }
            proof { lemma_char_order_total(module@, self.modules@[pos as int].module@); }
            pos = pos + 1;
        }
        (false, pos)
    }

    /// Whether the entries are unique by name, so that lookups are exact.
    proof fn lemma_module_pos(&self, module: Seq<char>, i: int)
        requires
            self.wf(),
            0 <= i < self.modules@.len(),
            self.modules@[i].module@ == module,
        ensures
            self.has_module(module),
            self.module_pos(module) == i,
    {
        assert(self.modules@[i].module@ == module);
        let p = self.module_pos(module);
        if p != i {
            lemma_seq_char_less_irreflexive(module);
        }
    }

    /// Makes sure `module` has an entry.
    pub fn ensure_module(&mut self, module: &str)
        requires
            old(self).wf(),
        ensures
            final(self).wf(),
            forall|m: Seq<char>| #[trigger] final(self).has_module(m) <==> old(self).has_module(m) || m == module@,
            forall|m: Seq<char>, n: Seq<char>| #[trigger] final(self).named(m, n) == old(self).named(m, n),
    {
        let (found, pos) = self.find_module(module);
        if found {
            return ;
        }
        let ghost old_modules = self.modules@;
        self.modules.insert(pos, ModuleEntry { module: owned(module), names: Vec::new() });
        proof {
            let new_modules = self.modules@;
            assert forall|i: int, j: int| 0 <= i < j < new_modules.len() implies seq_char_less(new_modules[i].module@, new_modules[j].module@) by {
                if i < pos && j > pos {
                    crate::diagnostic::lemma_seq_char_less_transitive(new_modules[i].module@, module@, new_modules[j].module@);
                }
                if i != pos as int && j != pos as int {
                    let oi = if i < pos { i } else { i - 1 };
                    let oj = if j < pos { j } else { j - 1 };
                    assert(new_modules[i] == old_modules[oi]);
                    assert(new_modules[j] == old_modules[oj]);
                }
            }
            assert forall|i: int| 0 <= i < new_modules.len() implies names_sorted(#[trigger] new_modules[i].names@) by {
                if i != pos as int {
                    let oi = if i < pos { i } else { i - 1 };
                    assert(new_modules[i] == old_modules[oi]);
                }
            }
            assert forall|m: Seq<char>| #[trigger] self.has_module(m) <==> old(self).has_module(m) || m == module@ by {
                if old(self).has_module(m) {
                    let oi = old(self).module_pos(m);
                    let ni = if oi < pos { oi } else { oi + 1 };
                    assert(new_modules[ni] == old_modules[oi]);
                }
                if m == module@ {
                    assert(new_modules[pos as int].module@ == m);
                }
                if self.has_module(m) && m != module@ {
                    let ni = self.module_pos(m);
                    let oi = if ni < pos { ni } else { ni - 1 };
                    assert(new_modules[ni] == old_modules[oi]);
                }
            }
            assert forall|m: Seq<char>, n: Seq<char>| #[trigger] self.named(m, n) == old(self).named(m, n) by {
                if m == module@ {
                    self.lemma_module_pos(m, pos as int);
                    assert(new_modules[pos as int].names@.len() == 0);
                    if old(self).has_module(m) {
                        let oi = old(self).module_pos(m);
                        assert(seq_char_less(old_modules[oi].module@, module@) || seq_char_less(module@, old_modules[oi].module@));
                        lemma_seq_char_less_irreflexive(module@);
                    }
                } else if old(self).has_module(m) {
                    let oi = old(self).module_pos(m);
                    let ni = if oi < pos { oi } else { oi + 1 };
                    assert(new_modules[ni] == old_modules[oi]);
                    self.lemma_module_pos(m, ni);
                } else {
                    if self.has_module(m) {
                        let ni = self.module_pos(m);
                        let oi = if ni < pos { ni } else { ni - 1 };
                        assert(new_modules[ni] == old_modules[oi]);
                    }
                }
            }
        }
    }

    /// Adds `symbol` after the symbols already recorded under its module and
    /// name, creating the module entry when needed.
    pub fn insert(&mut self, symbol: ModuleSymbol)
        requires
            old(self).wf(),
        ensures
            final(self).wf(),
            forall|m: Seq<char>| #[trigger] final(self).has_module(m) <==> old(self).has_module(m) || m == symbol.module@,
            forall|m: Seq<char>, n: Seq<char>| #[trigger] final(self).named(m, n) == if m == symbol.module@ && n == symbol.name@ {
                old(self).named(m, n).push(symbol.view())
            } else {
                old(self).named(m, n)
            },
    {
        let ghost view = symbol.view();
        self.ensure_module(symbol.module.as_str());
        let ghost mid = *self;
        let (found, pos) = self.find_module(symbol.module.as_str());
        if !found {
            // ensure_module made the entry; this branch is never taken
            proof {
                assert(mid.has_module(view.module));
                let i = mid.module_pos(view.module);
                if i < pos {
                    lemma_seq_char_less_irreflexive(view.module);
                } else {
                    lemma_seq_char_less_irreflexive(view.module);
                }
            }
            return ;
        }
        let mut entry = self.modules.remove(pos);
        insert_into_names(&mut entry.names, symbol);
        self.modules.insert(pos, entry);
        proof {
            let new_modules = self.modules@;
            assert(new_modules =~= mid.modules@.update(pos as int, new_modules[pos as int]));
            assert forall|i: int, j: int| 0 <= i < j < new_modules.len() implies seq_char_less(new_modules[i].module@, new_modules[j].module@) by {
                assert(new_modules[i].module@ == mid.modules@[i].module@);
                assert(new_modules[j].module@ == mid.modules@[j].module@);
            }
            assert forall|i: int| 0 <= i < new_modules.len() implies names_sorted(#[trigger] new_modules[i].names@) by {
                if i != pos as int {
                    assert(new_modules[i] == mid.modules@[i]);
                }
            }
            assert forall|m: Seq<char>| #[trigger] self.has_module(m) <==> mid.has_module(m) by {
                if mid.has_module(m) {
                    let i = mid.module_pos(m);
                    assert(new_modules[i].module@ == m);
                }
                if self.has_module(m) {
                    let i = self.module_pos(m);
                    assert(mid.modules@[i].module@ == m);
                }
            }
            assert forall|m: Seq<char>, n: Seq<char>| #[trigger] self.named(m, n) == if m == view.module && n == view.name {
                mid.named(m, n).push(view)
            } else {
                mid.named(m, n)
            } by {
                if m == view.module {
                    self.lemma_module_pos(m, pos as int);
                    mid.lemma_module_pos(m, pos as int);
                } else if mid.has_module(m) {
                    let i = mid.module_pos(m);
                    assert(new_modules[i] == mid.modules@[i]);
                    self.lemma_module_pos(m, i);
                } else {
                    if self.has_module(m) {
                        let i = self.module_pos(m);
                        assert(mid.modules@[i].module@ == m);
                    }
                }
            }
        }
    }
}

// ---------------------------------------------------------------------------
// Building symbols from declarations.

fn duplicate_optional_type(t: &Option<TypeName>) -> (r: Option<TypeName>)
    ensures
        r == *t,
{
    match t {
        Some(t) => Some(t.duplicate()),
        None => None,
    }
}

fn parameter_from_argument(a: &FlowArgument) -> (r: ModuleParameter)
    ensures
        r.view() == argument_parameter_view(*a),
{
    ModuleParameter { name: a.name.clone(), declared_type: duplicate_optional_type(&a.declared_type) }
}

fn signature_from_flow(flow: &Flow) -> (r: ModuleSignature)
    ensures
        r.view() == flow_signature_view(*flow),
{
    let mut parameters: Vec<ModuleParameter> = Vec::new();
    let mut i: usize = 0;
    while i < flow.arguments.len()
        invariant
            i <= flow.arguments@.len(),
            parameters@.map_values(|p: ModuleParameter| p.view()) =~= flow.arguments@.take(i as int).map_values(|a: FlowArgument| argument_parameter_view(a)),
        decreases flow.arguments.len() - i,
    {
        let p = parameter_from_argument(&flow.arguments[i]);
        let ghost prev = parameters@;
        parameters.push(p);
        assert(parameters@.map_values(|p: ModuleParameter| p.view()) =~= prev.map_values(|p: ModuleParameter| p.view()).push(argument_parameter_view(flow.arguments@[i as int])));
        assert(flow.arguments@.take(i + 1) =~= flow.arguments@.take(i as int).push(flow.arguments@[i as int]));
        i = i + 1;
    }
    assert(flow.arguments@.take(flow.arguments@.len() as int) =~= flow.arguments@);
    ModuleSignature {
        parameters,
        return_type: flow.return_type.duplicate(),
        has_typed_signature: flow.has_typed_signature,
    }
}

fn signature_from_external(e: &ExternalDeclaration) -> (r: ModuleSignature)
    ensures
        r.view() == external_signature_view(*e),
{
    let count = if e.argument_names.len() <= e.argument_types.len() {
        e.argument_names.len()
    } else {
        e.argument_types.len()
    };
    let ghost expected = external_signature_view(*e).parameters;
    let mut parameters: Vec<ModuleParameter> = Vec::new();
    let mut i: usize = 0;
    while i < count
        invariant
            i <= count,
            count <= e.argument_names@.len(),
            count <= e.argument_types@.len(),
            expected.len() == count,
            expected == external_signature_view(*e).parameters,
            parameters@.map_values(|p: ModuleParameter| p.view()) =~= expected.take(i as int),
        decreases count - i,
    {
        let p = ModuleParameter {
            name: e.argument_names[i].clone(),
            declared_type: Some(e.argument_types[i].duplicate()),
        };
        let ghost prev = parameters@;
        parameters.push(p);
        assert(parameters@.map_values(|p: ModuleParameter| p.view()) =~= prev.map_values(|p: ModuleParameter| p.view()).push(expected[i as int]));
        assert(expected.take(i + 1) =~= expected.take(i as int).push(expected[i as int]));
        i = i + 1;
    }
    assert(expected.take(count as int) =~= expected);
    ModuleSignature {
        parameters,
        return_type: e.return_type.duplicate(),
        has_typed_signature: true,
    }
}

fn fields_from_struct(fields: &Vec<StructField>) -> (r: Vec<ModuleStructField>)
    ensures
        r@.map_values(|f: ModuleStructField| f.view()) =~= fields@.map_values(|f: StructField| field_view(f)),
{
    let mut out: Vec<ModuleStructField> = Vec::new();
    let mut i: usize = 0;
    while i < fields.len()
        invariant
            i <= fields@.len(),
            out@.map_values(|f: ModuleStructField| f.view()) =~= fields@.take(i as int).map_values(|f: StructField| field_view(f)),
        decreases fields.len() - i,
    {
        let ghost prev = out@;
        out.push(
            ModuleStructField {
                name: fields[i].name.clone(),
                field_type: fields[i].field_type.duplicate(),
                span: fields[i].span.duplicate(),
            },
        );
        assert(out@.map_values(|f: ModuleStructField| f.view()) =~= prev.map_values(|f: ModuleStructField| f.view()).push(field_view(fields@[i as int])));
        assert(fields@.take(i + 1) =~= fields@.take(i as int).push(fields@[i as int]));
        i = i + 1;
    }
    assert(fields@.take(fields@.len() as int) =~= fields@);
    out
}

pub open spec fn option_symbol_view(s: Option<ModuleSymbol>) -> Option<SymbolView> {
    match s {
        Some(sym) => Some(sym.view()),
        None => None,
    }
}

fn plain(module: &String, name: &String, kind: ModuleSymbolKind, span: &SourceSpan) -> (r: ModuleSymbol)
    ensures
        r.view() == plain_symbol(module@, name@, kind, *span),
        r.signature is None,
        r.declared_type is None,
{
    let r = ModuleSymbol {
        module: module.clone(),
        name: name.clone(),
        kind,
        span: span.duplicate(),
        declared_type: None,
        signature: None,
        fields: Vec::new(),
    };
    assert(r.fields@.map_values(|f: ModuleStructField| f.view()) =~= Seq::<FieldView>::empty());
    r
}

/// The symbol that a top-level weave object declares, if any.
fn symbol_for_object(module: &String, object: &Object) -> (r: Option<ModuleSymbol>)
    ensures
        option_symbol_view(r) == declaration_view(module@, *object),
{
    match object {
        Object::ConstantDeclaration(d) => {
            let mut s = plain(module, &d.name, ModuleSymbolKind::Constant, &d.span);
            s.declared_type = Some(d.declared_type.duplicate());
            Some(s)
        },
        Object::VariableAssignment(a) => {
            match a.kind {
                crate::parsed::AssignmentKind::Global => {
                    let mut s = plain(module, &a.name, ModuleSymbolKind::GlobalVariable, &a.span);
                    s.declared_type = duplicate_optional_type(&a.declared_type);
                    Some(s)
                },
                _ => None,
            }
        },
        Object::StructDeclaration(d) => {
            let mut s = plain(module, &d.name, ModuleSymbolKind::Struct, &d.span);
            s.fields = fields_from_struct(&d.fields);
            Some(s)
        },
        Object::EnumDeclaration(d) => Some(plain(module, &d.name, ModuleSymbolKind::Enum, &d.span)),
        Object::ExternalDeclaration(e) => {
            let mut s = plain(module, &e.name, ModuleSymbolKind::External, &e.span);
            s.signature = Some(signature_from_external(e));
            Some(s)
        },
        _ => None,
    }
}

/// The symbol a top-level flow declares.
fn symbol_for_flow(module: &String, flow: &Flow) -> (r: ModuleSymbol)
    ensures
        r.view() == flow_declaration(module@, *flow),
{
    let kind = if flow.is_function {
        ModuleSymbolKind::Function
    } else {
        ModuleSymbolKind::Knot
    };
    let mut s = plain(module, &flow.name, kind, &flow.span);
    s.signature = Some(signature_from_flow(flow));
    s
}

proof fn lemma_select_push(decls: Seq<SymbolView>, x: SymbolView, m: Seq<char>, n: Seq<char>)
    ensures
        select_named(decls.push(x), m, n) == if x.module == m && x.name == n {
            select_named(decls, m, n).push(x)
        } else {
            select_named(decls, m, n)
        },
{
    assert(decls.push(x).drop_last() =~= decls);
}

/// The index of every importable declaration of every module of `story`:
/// each module is present, and the symbols of a name in a module are the
/// declarations of that name by modules of that name, in story order.
pub fn build_module_symbol_index(story: &Story) -> (index: ModuleSymbolIndex)
    ensures
        index.wf(),
        forall|m: Seq<char>| #[trigger] index.has_module(m) <==> declares_module(story.modules@, m),
        forall|m: Seq<char>, n: Seq<char>| #[trigger] index.named(m, n) == select_named(
            story_declarations(story.modules@),
            m,
            n,
        ),
{
    let mut index = ModuleSymbolIndex::empty();
    let ghost modules = story.modules@;
    let mut i: usize = 0;
    while i < story.modules.len()
        invariant
            modules == story.modules@,
            i <= modules.len(),
            index.wf(),
            forall|m: Seq<char>| #[trigger] index.has_module(m) <==> declares_module(modules.take(i as int), m),
            forall|m: Seq<char>, n: Seq<char>| #[trigger] index.named(m, n) == select_named(
                story_declarations(modules.take(i as int)),
                m,
                n,
            ),
        decreases story.modules.len() - i,
    {
        let module = &story.modules[i];
        let ghost before = story_declarations(modules.take(i as int));
        index.ensure_module(module.name.as_str());
        proof {
            assert forall|m: Seq<char>| #[trigger] declares_module(modules.take(i + 1), m) <==> declares_module(modules.take(i as int), m) || m == module.name@ by {
                if declares_module(modules.take(i + 1), m) {
                    let k = choose|k: int| 0 <= k < modules.take(i + 1).len() && (#[trigger] modules.take(i + 1)[k]).name@ == m;
                    if k < i {
                        assert(modules.take(i as int)[k] == modules.take(i + 1)[k]);
                    }
                }
                if m == module.name@ {
                    assert(modules.take(i + 1)[i as int] == *module);
                }
                if declares_module(modules.take(i as int), m) {
                    let k = choose|k: int| 0 <= k < modules.take(i as int).len() && (#[trigger] modules.take(i as int)[k]).name@ == m;
                    assert(modules.take(i + 1)[k] == modules.take(i as int)[k]);
                }
            }
        }
        let objects = &module.weave.content;
        let mut j: usize = 0;
        while j < objects.len()
            invariant
                modules == story.modules@,
                i < modules.len(),
                *module == modules[i as int],
                *objects == module.weave.content,
                j <= objects@.len(),
                index.wf(),
                forall|m: Seq<char>| #[trigger] index.has_module(m) <==> declares_module(modules.take(i + 1), m),
                index.has_module(module.name@),
                forall|m: Seq<char>, n: Seq<char>| #[trigger] index.named(m, n) == select_named(
                    before + weave_declarations(module.name@, objects@.take(j as int)),
                    m,
                    n,
                ),
            decreases objects.len() - j,
        {
            let ghost prefix = weave_declarations(module.name@, objects@.take(j as int));
            assert(objects@.take(j + 1).drop_last() =~= objects@.take(j as int));
            match symbol_for_object(&module.name, &objects[j]) {
                Some(symbol) => {
                    let ghost view = symbol.view();
                    assert(view.module == module.name@);
                    index.insert(symbol);
                    proof {
                        assert(before + prefix.push(view) =~= (before + prefix).push(view));
                        assert forall|m: Seq<char>, n: Seq<char>| #[trigger] index.named(m, n) == select_named(
                            before + weave_declarations(module.name@, objects@.take(j + 1)),
                            m,
                            n,
                        ) by {
                            lemma_select_push(before + prefix, view, m, n);
                        }
                    }
                },
                None => {},
            }
            j = j + 1;
        }
        assert(objects@.take(objects@.len() as int) =~= objects@);
        let ghost weave_part = before + weave_declarations(module.name@, objects@);
        let mut k: usize = 0;
        while k < module.flows.len()
            invariant
                modules == story.modules@,
                i < modules.len(),
                *module == modules[i as int],
                k <= module.flows@.len(),
                index.wf(),
                forall|m: Seq<char>| #[trigger] index.has_module(m) <==> declares_module(modules.take(i + 1), m),
                index.has_module(module.name@),
                forall|m: Seq<char>, n: Seq<char>| #[trigger] index.named(m, n) == select_named(
                    weave_part + module.flows@.take(k as int).map_values(|f: Flow| flow_declaration(module.name@, f)),
                    m,
                    n,
                ),
            decreases module.flows.len() - k,
        {
            let ghost prefix = module.flows@.take(k as int).map_values(|f: Flow| flow_declaration(module.name@, f));
            let symbol = symbol_for_flow(&module.name, &module.flows[k]);
            let ghost view = symbol.view();
            index.insert(symbol);
            proof {
                assert(module.flows@.take(k + 1).map_values(|f: Flow| flow_declaration(module.name@, f)) =~= prefix.push(view));
                assert(weave_part + prefix.push(view) =~= (weave_part + prefix).push(view));
                assert forall|m: Seq<char>, n: Seq<char>| #[trigger] index.named(m, n) == select_named(
                    weave_part + module.flows@.take(k + 1).map_values(|f: Flow| flow_declaration(module.name@, f)),
                    m,
                    n,
                ) by {
                    lemma_select_push(weave_part + prefix, view, m, n);
                }
            }
            k = k + 1;
        }
        proof {
            assert(module.flows@.take(module.flows@.len() as int) =~= module.flows@);
            assert(modules.take(i + 1).drop_last() =~= modules.take(i as int));
            assert(story_declarations(modules.take(i + 1)) =~= before + module_declarations(*module));
            assert(weave_part + module.flows@.map_values(|f: Flow| flow_declaration(module.name@, f)) =~= before + module_declarations(*module));
        }
        i = i + 1;
    }
    assert(modules.take(modules.len() as int) =~= modules);
    index
}

// ---------------------------------------------------------------------------
// Queries and namespace diagnostics.

impl ModuleSymbolIndex {
    /// The names declared by `module`, when the index has it.
    pub fn symbols_for_module(&self, module: &str) -> (r: Option<&Vec<NameEntry>>)
        requires
            self.wf(),
        ensures
            r is Some <==> self.has_module(module@),
    {
        let (found, pos) = self.find_module(module);
        if found {
            Some(&self.modules[pos].names)
        } else {
            proof {
                if self.has_module(module@) {
                    let i = self.module_pos(module@);
                    lemma_seq_char_less_irreflexive(module@);
                    if i < pos {
                        assert(seq_char_less(self.modules@[i].module@, module@));
                    } else {
                        assert(seq_char_less(module@, self.modules@[i].module@));
                    }
                }
            }
            None
        }
    }

    /// The symbols named `name` declared by `module`, in declaration order.
    pub fn symbols_named(&self, module: &str, name: &str) -> (r: Vec<&ModuleSymbol>)
        requires
            self.wf(),
        ensures
            r@.map_values(|s: &ModuleSymbol| s.view()) =~= self.named(module@, name@),
    {
        let mut out: Vec<&ModuleSymbol> = Vec::new();
        let (found, pos) = self.find_module(module);
        if !found {
            proof {
                if self.has_module(module@) {
                    let i = self.module_pos(module@);
                    lemma_seq_char_less_irreflexive(module@);
                    if i < pos {
                        assert(seq_char_less(self.modules@[i].module@, module@));
                    } else {
                        assert(seq_char_less(module@, self.modules@[i].module@));
                    }
                }
            }
            return out;
        }
        proof { self.lemma_module_pos(module@, pos as int); }
        let names = &self.modules[pos].names;
        let (found_name, npos) = find_name(names, name);
        if !found_name {
            proof {
                assert forall|j: int| 0 <= j < names@.len() implies (#[trigger] names@[j]).name@ != name@ by {
                    lemma_seq_char_less_irreflexive(name@);
                    if j < npos {
                        assert(seq_char_less(names@[j].name@, name@));
                    } else {
                        assert(seq_char_less(name@, names@[j].name@));
                    }
                }
                lemma_names_lookup_absent(names@, name@);
            }
            return out;
        }
        proof { lemma_names_lookup_at(names@, name@, npos as int); }
        let symbols = &names[npos].symbols;
        let mut k: usize = 0;
        while k < symbols.len()
            invariant
                k <= symbols@.len(),
                out@.map_values(|s: &ModuleSymbol| s.view()) =~= symbols_view(symbols@).take(k as int),
            decreases symbols.len() - k,
        {
            let ghost prev = out@;
            out.push(&symbols[k]);
            assert(out@.map_values(|s: &ModuleSymbol| s.view()) =~= prev.map_values(|s: &ModuleSymbol| s.view()).push(symbols@[k as int].view()));
            k = k + 1;
        }
        out
    }

    /// The first symbol named `name` declared by `module`.
    pub fn get(&self, module: &str, name: &str) -> (r: Option<&ModuleSymbol>)
        requires
            self.wf(),
        ensures
            r is Some <==> self.named(module@, name@).len() > 0,
            r matches Some(s) ==> s.view() == self.named(module@, name@)[0],
    {
        let symbols = self.symbols_named(module, name);
        if symbols.len() > 0 {
            assert(symbols@.map_values(|s: &ModuleSymbol| s.view())[0] == symbols@[0].view());
            Some(symbols[0])
        } else {
            None
        }
    }
}

/// `d` is the namespace collision reported for `duplicate`, a later
/// declaration of the name that `first` declared first in its module.
pub open spec fn is_collision_diagnostic(d: Diagnostic, first: SymbolView, duplicate: SymbolView) -> bool {
    &&& d.severity == crate::diagnostic::DiagnosticSeverity::Error
    &&& d.message@ == "Module '"@ + duplicate.module + "' already contains a "@ + kind_display(first.kind)
        + " named '"@ + duplicate.name + "'; "@ + kind_display(duplicate.kind)
        + " declarations cannot reuse that name"@
    &&& d.span_view() == duplicate.span
}

/// `d` is the collision reported for some reused name of `index`.
pub open spec fn is_index_collision(index: ModuleSymbolIndex, d: Diagnostic) -> bool {
    exists|i: int, j: int, k: int| #[trigger] entry_in_range(index, i, j, k) && is_collision_diagnostic(
        d,
        entry_symbols(index, i, j)[0],
        entry_symbols(index, i, j)[k],
    )
}

/// The entries of the index at module position `i` and name position `j`.
pub open spec fn entry_symbols(index: ModuleSymbolIndex, i: int, j: int) -> Seq<SymbolView> {
    symbols_view(index.modules@[i].names@[j].symbols@)
}

pub open spec fn entry_in_range(index: ModuleSymbolIndex, i: int, j: int, k: int) -> bool {
    0 <= i < index.modules@.len() && 0 <= j < index.modules@[i].names@.len() && 1 <= k
        < index.modules@[i].names@[j].symbols@.len()
}

/// What the collision error for `duplicate` says.
pub open spec fn collision_view(first: SymbolView, duplicate: SymbolView) -> DiagView {
    (
        DiagnosticSeverity::Error,
        "Module '"@ + duplicate.module + "' already contains a "@ + kind_display(first.kind) + " named '"@ + duplicate.name + "'; "@
            + kind_display(duplicate.kind) + " declarations cannot reuse that name"@,
        duplicate.span,
    )
}

/// The collisions of one name: each declaration after the first, before
/// position `n`.
pub open spec fn entry_collisions(syms: Seq<SymbolView>, n: int) -> Seq<DiagView>
    decreases n,
{
    if n <= 1 {
        Seq::empty()
    } else {
        entry_collisions(syms, n - 1).push(collision_view(syms[0], syms[n - 1]))
    }
}

/// The collisions of the first `n` names of module `i` of the index.
pub open spec fn names_collisions(index: ModuleSymbolIndex, i: int, n: int) -> Seq<DiagView>
    decreases n,
{
    if n <= 0 {
        Seq::empty()
    } else {
        names_collisions(index, i, n - 1) + entry_collisions(entry_symbols(index, i, n - 1), entry_symbols(index, i, n - 1).len() as int)
    }
}

/// The collisions of the first `n` modules of the index, in index order.
pub open spec fn modules_collisions(index: ModuleSymbolIndex, n: int) -> Seq<DiagView>
    decreases n,
{
    if n <= 0 {
        Seq::empty()
    } else {
        modules_collisions(index, n - 1) + names_collisions(index, n - 1, index.modules@[n - 1].names@.len() as int)
    }
}

fn collision_diagnostic(first: &ModuleSymbol, duplicate: &ModuleSymbol) -> (d: Diagnostic)
    ensures
        is_collision_diagnostic(d, first.view(), duplicate.view()),
{
    let mut message = concat3("Module '", duplicate.module.as_str(), "' already contains a ");
    message.append(first.kind.display_name());
    message.append(" named '");
    message.append(duplicate.name.as_str());
    message.append("'; ");
    message.append(duplicate.kind.display_name());
    message.append(" declarations cannot reuse that name");
    Diagnostic::error(duplicate.span.duplicate(), message)
}

impl ModuleSymbolIndex {
    /// One error for every declaration that reuses a name already declared
    /// in its module, naming the kind of the first declaration; in index
    /// order (module, then name, then declaration).
    pub fn namespace_collision_diagnostics(&self) -> (r: Vec<Diagnostic>)
        requires
            self.wf(),
        ensures
            forall|d: int| 0 <= d < r@.len() ==> is_index_collision(*self, #[trigger] r@[d]),
            collisions_reported(*self, r@),
            diag_views(r@) == modules_collisions(*self, self.modules@.len() as int),
    {
        let mut out: Vec<Diagnostic> = Vec::new();
        let mut i: usize = 0;
        assert(diag_views(out@) =~= modules_collisions(*self, 0));
        while i < self.modules.len()
            invariant
                i <= self.modules@.len(),
                diag_views(out@) == modules_collisions(*self, i as int),
                forall|d: int| 0 <= d < out@.len() ==> is_index_collision(*self, #[trigger] out@[d]),
                forall|i2: int, j: int, k: int| #[trigger] entry_in_range(*self, i2, j, k) && i2 < i ==> exists|d: int|
                    0 <= d < out@.len() && is_collision_diagnostic(
                        #[trigger] out@[d],
                        entry_symbols(*self, i2, j)[0],
                        entry_symbols(*self, i2, j)[k],
                    ),
            decreases self.modules.len() - i,
        {
            let names = &self.modules[i].names;
            let ghost before_module = diag_views(out@);
            let mut j: usize = 0;
            assert(diag_views(out@) =~= before_module + names_collisions(*self, i as int, 0));
            while j < names.len()
                invariant
                    i < self.modules@.len(),
                    *names == self.modules@[i as int].names,
                    j <= names@.len(),
                    diag_views(out@) == before_module + names_collisions(*self, i as int, j as int),
                    forall|d: int| 0 <= d < out@.len() ==> is_index_collision(*self, #[trigger] out@[d]),
                    forall|i2: int, j2: int, k: int| #[trigger] entry_in_range(*self, i2, j2, k) && (i2 < i || (i2 == i && j2 < j)) ==> exists|d: int|
                        0 <= d < out@.len() && is_collision_diagnostic(
                            #[trigger] out@[d],
                            entry_symbols(*self, i2, j2)[0],
                            entry_symbols(*self, i2, j2)[k],
                        ),
                decreases names.len() - j,
            {
                let symbols = &names[j].symbols;
                let ghost before_name = diag_views(out@);
                let mut k: usize = 1;
                assert(diag_views(out@) =~= before_name + entry_collisions(entry_symbols(*self, i as int, j as int), 1));
                while k < symbols.len()
                    invariant
                        i < self.modules@.len(),
                        *names == self.modules@[i as int].names,
                        j < names@.len(),
                        *symbols == names@[j as int].symbols,
                        1 <= k,
                        k <= symbols@.len() || k == 1,
                        diag_views(out@) == before_name + entry_collisions(entry_symbols(*self, i as int, j as int), k as int),
                        forall|d: int| 0 <= d < out@.len() ==> is_index_collision(*self, #[trigger] out@[d]),
                        forall|i2: int, j2: int, k2: int| #[trigger] entry_in_range(*self, i2, j2, k2) && (i2 < i || (i2 == i && j2 < j) || (i2 == i && j2 == j && k2 < k)) ==> exists|d: int|
                            0 <= d < out@.len() && is_collision_diagnostic(
                                #[trigger] out@[d],
                                entry_symbols(*self, i2, j2)[0],
                                entry_symbols(*self, i2, j2)[k2],
                            ),
                    decreases symbols.len() - k,
                {
                    let d = collision_diagnostic(&symbols[0], &symbols[k]);
                    proof {
                        assert(entry_in_range(*self, i as int, j as int, k as int));
                        assert(entry_symbols(*self, i as int, j as int)[0] == symbols@[0].view());
                        assert(entry_symbols(*self, i as int, j as int)[k as int] == symbols@[k as int].view());
                    }
                    let ghost prev = out@;
                    out.push(d);
                    proof {
                        assert(diag_views(out@) =~= diag_views(prev).push(diag_view(d)));
                        assert(diag_views(out@) =~= before_name + entry_collisions(entry_symbols(*self, i as int, j as int), k + 1));
                        assert forall|x: int| 0 <= x < out@.len() implies is_index_collision(*self, #[trigger] out@[x]) by {
                            if x < prev.len() {
                                assert(out@[x] == prev[x]);
                            } else {
                                assert(entry_in_range(*self, i as int, j as int, k as int));
                            }
                        }
                        assert forall|i2: int, j2: int, k2: int| #[trigger] entry_in_range(*self, i2, j2, k2) && (i2 < i || (i2 == i && j2 < j) || (i2 == i && j2 == j && k2 < k + 1)) implies exists|x: int|
                            0 <= x < out@.len() && is_collision_diagnostic(
                                #[trigger] out@[x],
                                entry_symbols(*self, i2, j2)[0],
                                entry_symbols(*self, i2, j2)[k2],
                            ) by {
                            if i2 == i && j2 == j && k2 == k {
                                assert(is_collision_diagnostic(out@[prev.len() as int], entry_symbols(*self, i2, j2)[0], entry_symbols(*self, i2, j2)[k2]));
                            } else {
                                let x = choose|x: int| 0 <= x < prev.len() && is_collision_diagnostic(
                                    #[trigger] prev[x],
                                    entry_symbols(*self, i2, j2)[0],
                                    entry_symbols(*self, i2, j2)[k2],
                                );
                                assert(out@[x] == prev[x]);
                            }
                        }
                    }
                    k = k + 1;
                }
                assert(entry_collisions(entry_symbols(*self, i as int, j as int), k as int) == entry_collisions(
                    entry_symbols(*self, i as int, j as int),
                    entry_symbols(*self, i as int, j as int).len() as int,
                ));
                assert(diag_views(out@) =~= before_module + names_collisions(*self, i as int, j + 1));
                j = j + 1;
            }
            assert(diag_views(out@) =~= modules_collisions(*self, i + 1));
            i = i + 1;
        }
        out
    }
}

/// `d` reports that `module` repeats an earlier module name.
pub open spec fn is_duplicate_module_diagnostic(d: Diagnostic, module: Module) -> bool {
    &&& d.severity == crate::diagnostic::DiagnosticSeverity::Error
    &&& d.message@ == "Module '"@ + module.name@ + "' is already declared in this compilation"@
    &&& d.span_view() == module.name_span
}

/// Whether the module at position `i` repeats the name of an earlier one.
pub open spec fn repeats_earlier_module(modules: Seq<Module>, i: int) -> bool {
    exists|k: int| 0 <= k < i && modules[k].name@ == (#[trigger] modules[i]).name@
}

/// `d` is the error for some module of `modules` that repeats a name.
pub open spec fn is_story_duplicate(modules: Seq<Module>, d: Diagnostic) -> bool {
    exists|i: int| 0 <= i < modules.len() && repeats_earlier_module(modules, i) && is_duplicate_module_diagnostic(d, #[trigger] modules[i])
}

/// Every module of `modules` before `upto` that repeats a name is reported
/// in `r`.
pub open spec fn duplicates_reported(modules: Seq<Module>, upto: int, r: Seq<Diagnostic>) -> bool {
    forall|i: int| 0 <= i < upto && #[trigger] repeats_earlier_module(modules, i) ==> exists|d: int| 0 <= d < r.len() && is_duplicate_module_diagnostic(#[trigger] r[d], modules[i])
}

/// Every reused name of `index` is reported in `r`.
pub open spec fn collisions_reported(index: ModuleSymbolIndex, r: Seq<Diagnostic>) -> bool {
    forall|i: int, j: int, k: int| #[trigger] entry_in_range(index, i, j, k) ==> exists|d: int|
        0 <= d < r.len() && is_collision_diagnostic(
            #[trigger] r[d],
            entry_symbols(index, i, j)[0],
            entry_symbols(index, i, j)[k],
        )
}

/// The errors for the modules among the first `n` that repeat an earlier
/// module's name, in story order.
pub open spec fn duplicate_views(modules: Seq<Module>, n: int) -> Seq<DiagView>
    decreases n,
{
    if n <= 0 {
        Seq::empty()
    } else {
        duplicate_views(modules, n - 1) + if repeats_earlier_module(modules, n - 1) {
            seq![(DiagnosticSeverity::Error, "Module '"@ + modules[n - 1].name@ + "' is already declared in this compilation"@, modules[n - 1].name_span)]
        } else {
            Seq::empty()
        }
    }
}

/// The namespace errors of a story: repeated modules, then reused names.
pub open spec fn namespace_views(story: Story, index: ModuleSymbolIndex) -> Seq<DiagView> {
    duplicate_views(story.modules@, story.modules@.len() as int) + modules_collisions(index, index.modules@.len() as int)
}

/// One error for each module whose name was already used by an earlier one,
/// in story order.
pub fn duplicate_module_diagnostics(story: &Story) -> (r: Vec<Diagnostic>)
    ensures
        forall|d: int| 0 <= d < r@.len() ==> is_story_duplicate(story.modules@, #[trigger] r@[d]),
        duplicates_reported(story.modules@, story.modules@.len() as int, r@),
        diag_views(r@) == duplicate_views(story.modules@, story.modules@.len() as int),
{
    let mut out: Vec<Diagnostic> = Vec::new();
    let mut i: usize = 0;
    assert(diag_views(out@) =~= duplicate_views(story.modules@, 0));
    while i < story.modules.len()
        invariant
            i <= story.modules@.len(),
            diag_views(out@) == duplicate_views(story.modules@, i as int),
            forall|d: int| 0 <= d < out@.len() ==> is_story_duplicate(story.modules@, #[trigger] out@[d]),
            duplicates_reported(story.modules@, i as int, out@),
        decreases story.modules.len() - i,
    {
        let mut seen = false;
        let mut k: usize = 0;
        while k < i
            invariant
                k <= i < story.modules@.len(),
                seen <==> exists|k2: int| 0 <= k2 < k && story.modules@[k2].name@ == (#[trigger] story.modules@[i as int]).name@,
            decreases i - k,
        {
            if story.modules[k].name == story.modules[i].name {
                seen = true;
            }
            k = k + 1;
        }
        assert(seen <==> repeats_earlier_module(story.modules@, i as int));
        let ghost prev = out@;
        if seen {
            let module = &story.modules[i];
            let d = Diagnostic::error(
                module.name_span.duplicate(),
                concat3("Module '", module.name.as_str(), "' is already declared in this compilation"),
            );
            out.push(d);
            proof {
                assert(diag_views(out@) =~= diag_views(prev).push(diag_view(d)));
                assert(is_duplicate_module_diagnostic(out@[prev.len() as int], story.modules@[i as int]));
                assert forall|x: int| 0 <= x < out@.len() implies is_story_duplicate(story.modules@, #[trigger] out@[x]) by {
                    if x < prev.len() {
                        assert(out@[x] == prev[x]);
                    }
                }
            }
        }
        proof {
            assert forall|i2: int| 0 <= i2 < i + 1 && #[trigger] repeats_earlier_module(story.modules@, i2) implies exists|x: int| 0 <= x < out@.len() && is_duplicate_module_diagnostic(#[trigger] out@[x], story.modules@[i2]) by {
                if i2 == i {
                    assert(is_duplicate_module_diagnostic(out@[prev.len() as int], story.modules@[i2]));
                } else {
                    let x = choose|x: int| 0 <= x < prev.len() && is_duplicate_module_diagnostic(#[trigger] prev[x], story.modules@[i2]);
                    assert(out@[x] == prev[x]);
                }
            }
        }
        assert(diag_views(out@) =~= duplicate_views(story.modules@, i + 1));
        i = i + 1;
    }
    out
}

/// `d` is a duplicate-module error for some repeated module of `story`, or
/// a collision error for some reused name in `index`.
pub open spec fn is_namespace_diagnostic(d: Diagnostic, story: Story, index: ModuleSymbolIndex) -> bool {
    is_story_duplicate(story.modules@, d) || is_index_collision(index, d)
}

proof fn lemma_sorted_namespace(story: Story, index: ModuleSymbolIndex, dups: Seq<Diagnostic>, cols: Seq<Diagnostic>, r: Seq<Diagnostic>)
    requires
        r.to_multiset() == (dups + cols).to_multiset(),
        forall|d: int| 0 <= d < dups.len() ==> is_story_duplicate(story.modules@, #[trigger] dups[d]),
        duplicates_reported(story.modules@, story.modules@.len() as int, dups),
        forall|d: int| 0 <= d < cols.len() ==> is_index_collision(index, #[trigger] cols[d]),
        collisions_reported(index, cols),
    ensures
        forall|d: int| 0 <= d < r.len() ==> is_namespace_diagnostic(#[trigger] r[d], story, index),
        duplicates_reported(story.modules@, story.modules@.len() as int, r),
        collisions_reported(index, r),
{
    let joined = dups + cols;
    lemma_same_elements(r, joined);
    assert forall|d: int| 0 <= d < r.len() implies is_namespace_diagnostic(#[trigger] r[d], story, index) by {
        assert(r.contains(r[d]));
        assert(joined.contains(r[d]));
        let x = choose|x: int| 0 <= x < joined.len() && joined[x] == r[d];
        if x < dups.len() {
            assert(joined[x] == dups[x]);
        } else {
            assert(joined[x] == cols[x - dups.len()]);
        }
    }
    lemma_duplicates_carry(story, dups, joined, r);
    lemma_collisions_carry(index, dups, cols, joined, r);
}

proof fn lemma_duplicates_carry(story: Story, dups: Seq<Diagnostic>, joined: Seq<Diagnostic>, r: Seq<Diagnostic>)
    requires
        forall|x: Diagnostic| #[trigger] r.contains(x) <==> joined.contains(x),
        dups.len() <= joined.len(),
        forall|x: int| 0 <= x < dups.len() ==> joined[x] == dups[x],
        duplicates_reported(story.modules@, story.modules@.len() as int, dups),
    ensures
        duplicates_reported(story.modules@, story.modules@.len() as int, r),
{
    assert forall|i: int| 0 <= i < story.modules@.len() && #[trigger] repeats_earlier_module(story.modules@, i) implies exists|d: int| 0 <= d < r.len() && is_duplicate_module_diagnostic(#[trigger] r[d], story.modules@[i]) by {
        let x = choose|x: int| 0 <= x < dups.len() && is_duplicate_module_diagnostic(#[trigger] dups[x], story.modules@[i]);
        assert(joined[x] == dups[x]);
        assert(joined.contains(dups[x]));
        assert(r.contains(dups[x]));
        let y = choose|y: int| 0 <= y < r.len() && r[y] == dups[x];
        assert(0 <= y < r.len() && is_duplicate_module_diagnostic(r[y], story.modules@[i]));
    }
}

proof fn lemma_collisions_carry(index: ModuleSymbolIndex, dups: Seq<Diagnostic>, cols: Seq<Diagnostic>, joined: Seq<Diagnostic>, r: Seq<Diagnostic>)
    requires
        forall|x: Diagnostic| #[trigger] r.contains(x) <==> joined.contains(x),
        joined == dups + cols,
        collisions_reported(index, cols),
    ensures
        collisions_reported(index, r),
{
    assert forall|i: int, j: int, k: int| #[trigger] entry_in_range(index, i, j, k) implies exists|d: int|
        0 <= d < r.len() && is_collision_diagnostic(
            #[trigger] r[d],
            entry_symbols(index, i, j)[0],
            entry_symbols(index, i, j)[k],
        ) by {
        let x = choose|x: int| 0 <= x < cols.len() && is_collision_diagnostic(
            #[trigger] cols[x],
            entry_symbols(index, i, j)[0],
            entry_symbols(index, i, j)[k],
        );
        assert(joined[x + dups.len()] == cols[x]);
        assert(joined.contains(cols[x]));
        assert(r.contains(cols[x]));
        let y = choose|y: int| 0 <= y < r.len() && r[y] == cols[x];
        assert(0 <= y < r.len() && is_collision_diagnostic(r[y], entry_symbols(index, i, j)[0], entry_symbols(index, i, j)[k]));
    }
}

/// The module namespace diagnostics, in report order: an error for each
/// module that repeats an earlier module's name, and for each declaration
/// that reuses a name already declared in its module. Nothing else is
/// reported.
pub fn module_symbol_diagnostics(story: &Story, index: &ModuleSymbolIndex) -> (r: Vec<Diagnostic>)
    requires
        index.wf(),
    ensures
        diagnostics_sorted(r@),
        forall|d: int| 0 <= d < r@.len() ==> is_namespace_diagnostic(#[trigger] r@[d], *story, *index),
        duplicates_reported(story.modules@, story.modules@.len() as int, r@),
        collisions_reported(*index, r@),
        exists|u: Seq<Diagnostic>| #[trigger] diag_views(u) == namespace_views(*story, *index) && r@.to_multiset() == u.to_multiset(),
        exists|u: Seq<Diagnostic>, p: Seq<int>| #[trigger] sorted_from(u, r@, p) && diag_views(u) == namespace_views(*story, *index),
{
    let mut diagnostics = duplicate_module_diagnostics(story);
    let ghost dups = diagnostics@;
    let mut collisions = index.namespace_collision_diagnostics();
    let ghost cols = collisions@;
    diagnostics.append(&mut collisions);
    assert(diagnostics@ =~= dups + cols);
    sort_diagnostics(&mut diagnostics);
    proof {
        lemma_sorted_namespace(*story, *index, dups, cols, diagnostics@);
        crate::diagnostic::lemma_diag_views_add(dups, cols);
        assert(diag_views(dups + cols) == namespace_views(*story, *index));
    }
    diagnostics
}

/// Where `name` stands in `names`, or where it would be inserted.
fn find_name(names: &Vec<NameEntry>, name: &str) -> (r: (bool, usize))
    requires
        names_sorted(names@),
    ensures
        r.1 <= names@.len(),
        r.0 ==> r.1 < names@.len() && names@[r.1 as int].name@ == name@,
        !r.0 ==> forall|k: int| 0 <= k < r.1 ==> seq_char_less(#[trigger] names@[k].name@, name@),
        !r.0 ==> forall|k: int| r.1 <= k < names@.len() ==> seq_char_less(name@, #[trigger] names@[k].name@),
{
    let mut pos: usize = 0;
    while pos < names.len()
        invariant
            names_sorted(names@),
            pos <= names@.len(),
            forall|k: int| 0 <= k < pos ==> seq_char_less(#[trigger] names@[k].name@, name@),
        decreases names.len() - pos,
    {
        if str_less(name, names[pos].name.as_str()) {
            proof {
                assert forall|k: int| pos <= k < names@.len() implies seq_char_less(name@, #[trigger] names@[k].name@) by {
                    if k > pos {
                        crate::diagnostic::lemma_seq_char_less_transitive(name@, names@[pos as int].name@, names@[k].name@);
                    }
                }
            }
            return (false, pos);
        }
        if crate::text::str_eq(name, names[pos].name.as_str()) {
            return (true, pos);
        }
        proof { lemma_char_order_total(name@, names@[pos as int].name@); }
        pos = pos + 1;
    }
    (false, pos)
}

proof fn lemma_names_lookup_at(names: Seq<NameEntry>, name: Seq<char>, i: int)
    requires
        names_sorted(names),
        0 <= i < names.len(),
        names[i].name@ == name,
    ensures
        names_lookup(names, name) == symbols_view(names[i].symbols@),
{
    assert(names[i].name@ == name);
    let p = choose|j: int| 0 <= j < names.len() && (#[trigger] names[j]).name@ == name;
    lemma_seq_char_less_irreflexive(name);
    if p < i {
        assert(seq_char_less(names[p].name@, names[i].name@));
    } else if p > i {
        assert(seq_char_less(names[i].name@, names[p].name@));
    }
}

proof fn lemma_names_lookup_absent(names: Seq<NameEntry>, name: Seq<char>)
    requires
        forall|j: int| 0 <= j < names.len() ==> (#[trigger] names[j]).name@ != name,
    ensures
        names_lookup(names, name) == Seq::<SymbolView>::empty(),
{
}

/// Adds `symbol` at the end of the entry for its name.
fn insert_into_names(names: &mut Vec<NameEntry>, symbol: ModuleSymbol)
    requires
        names_sorted(old(names)@),
    ensures
        names_sorted(final(names)@),
        forall|n: Seq<char>| #[trigger] names_lookup(final(names)@, n) == if n == symbol.name@ {
            names_lookup(old(names)@, n).push(symbol.view())
        } else {
            names_lookup(old(names)@, n)
        },
{
    let ghost old_names = names@;
    let ghost view = symbol.view();
    let (found, pos) = find_name(names, symbol.name.as_str());
    if found {
        let mut entry = names.remove(pos);
        let ghost old_symbols = entry.symbols@;
        entry.symbols.push(symbol);
        names.insert(pos, entry);
        proof {
            let new_names = names@;
            assert(new_names =~= old_names.update(pos as int, new_names[pos as int]));
            assert(symbols_view(new_names[pos as int].symbols@) =~= symbols_view(old_symbols).push(view));
            assert forall|i: int, j: int| 0 <= i < j < new_names.len() implies seq_char_less(new_names[i].name@, new_names[j].name@) by {
                assert(new_names[i].name@ == old_names[i].name@);
                assert(new_names[j].name@ == old_names[j].name@);
            }
            assert forall|n: Seq<char>| #[trigger] names_lookup(new_names, n) == if n == view.name {
                names_lookup(old_names, n).push(view)
            } else {
                names_lookup(old_names, n)
            } by {
                if n == view.name {
                    lemma_names_lookup_at(new_names, n, pos as int);
                    lemma_names_lookup_at(old_names, n, pos as int);
                } else {
                    if exists|j: int| 0 <= j < old_names.len() && (#[trigger] old_names[j]).name@ == n {
                        let j = choose|j: int| 0 <= j < old_names.len() && (#[trigger] old_names[j]).name@ == n;
                        lemma_names_lookup_at(old_names, n, j);
                        assert(new_names[j] == old_names[j]);
                        lemma_names_lookup_at(new_names, n, j);
                    } else {
                        assert forall|j: int| 0 <= j < new_names.len() implies (#[trigger] new_names[j]).name@ != n by {
                            assert(new_names[j].name@ == old_names[j].name@);
                        }
                        lemma_names_lookup_absent(new_names, n);
                    }
                }
            }
        }
    } else {
        let name = symbol.name.clone();
        let mut symbols: Vec<ModuleSymbol> = Vec::new();
        symbols.push(symbol);
        names.insert(pos, NameEntry { name, symbols });
        proof {
            let new_names = names@;
            assert forall|i: int, j: int| 0 <= i < j < new_names.len() implies seq_char_less(new_names[i].name@, new_names[j].name@) by {
                if i < pos && j > pos {
                    crate::diagnostic::lemma_seq_char_less_transitive(new_names[i].name@, view.name, new_names[j].name@);
                }
                if i != pos as int && j != pos as int {
                    let oi = if i < pos { i } else { i - 1 };
                    let oj = if j < pos { j } else { j - 1 };
                    assert(new_names[i] == old_names[oi]);
                    assert(new_names[j] == old_names[oj]);
                }
            }
            assert forall|n: Seq<char>| #[trigger] names_lookup(new_names, n) == if n == view.name {
                names_lookup(old_names, n).push(view)
            } else {
                names_lookup(old_names, n)
            } by {
                if n == view.name {
                    lemma_names_lookup_at(new_names, n, pos as int);
                    assert(symbols_view(new_names[pos as int].symbols@) =~= seq![view]);
                    assert forall|j: int| 0 <= j < old_names.len() implies (#[trigger] old_names[j]).name@ != n by {
                        if j < pos {} else {}
                        lemma_seq_char_less_irreflexive(n);
                    }
                    lemma_names_lookup_absent(old_names, n);
                    assert(Seq::<SymbolView>::empty().push(view) =~= seq![view]);
                } else {
                    if exists|j: int| 0 <= j < old_names.len() && (#[trigger] old_names[j]).name@ == n {
                        let j = choose|j: int| 0 <= j < old_names.len() && (#[trigger] old_names[j]).name@ == n;
                        lemma_names_lookup_at(old_names, n, j);
                        let nj = if j < pos { j } else { j + 1 };
                        assert(new_names[nj] == old_names[j]);
                        lemma_names_lookup_at(new_names, n, nj);
                    } else {
                        assert forall|j: int| 0 <= j < new_names.len() implies (#[trigger] new_names[j]).name@ != n by {
                            if j != pos as int {
                                let oj = if j < pos { j } else { j - 1 };
                                assert(new_names[j] == old_names[oj]);
                            }
                        }
                        lemma_names_lookup_absent(new_names, n);
                    }
                }
            }
        }
    }
}

/// Code-point order is total: two different sequences are ordered one way
/// or the other.
pub proof fn lemma_char_order_total(a: Seq<char>, b: Seq<char>)
    ensures
        a == b || seq_char_less(a, b) || seq_char_less(b, a),
    decreases a.len(),
{
    if a.len() > 0 && b.len() > 0 && a[0] == b[0] {
        lemma_char_order_total(a.drop_first(), b.drop_first());
        if a.drop_first() == b.drop_first() {
            assert(a =~= seq![a[0]] + a.drop_first());
            assert(b =~= seq![b[0]] + b.drop_first());
        }
    } else if a.len() == 0 && b.len() == 0 {
        assert(a =~= b);
    } else if a.len() > 0 && b.len() > 0 {
        let x = a[0] as int;
        let y = b[0] as int;
        assert(x != y);
    }
}

} // verus!
