//! The index of one compilation: the declared types, and the variables of all
//! units under their qualified names.

use vstd::prelude::*;
use crate::ast::{view_each, lemma_view_each_push, Statement, StatementView};
use crate::typesystem::{DataType, DataTypeInformation, DataTypeInformationView, DataTypeView};

verus! {

/// What the index knows of a declared variable.
#[derive(Debug, PartialEq)]
pub struct VariableIndexEntry {
    pub name: String,
    pub data_type_name: String,
    pub initial_value: Option<Statement>,
    pub constant: bool,
}

/// The model of a [`VariableIndexEntry`].
pub struct VariableIndexEntryView {
    pub name: Seq<char>,
    pub data_type_name: Seq<char>,
    pub initial_value: Option<StatementView>,
    pub constant: bool,
}

impl View for VariableIndexEntry {
    type V = VariableIndexEntryView;

    open spec fn view(&self) -> VariableIndexEntryView {
        VariableIndexEntryView {
            name: self.name@,
            data_type_name: self.data_type_name@,
            initial_value: match self.initial_value {
                Some(statement) => Some(statement@),
                None => None,
            },
            constant: self.constant,
        }
    }
}

impl VariableIndexEntry {
    /// The entry of the variable with the given qualified name.
    pub fn new(
        name: &str,
        data_type_name: &str,
        initial_value: Option<Statement>,
        constant: bool,
    ) -> (result: VariableIndexEntry)
        ensures
            result@ == (VariableIndexEntryView {
                name: name@,
                data_type_name: data_type_name@,
                initial_value: match initial_value {
                    Some(statement) => Some(statement@),
                    None => None,
                },
                constant,
            }),
            result.initial_value == initial_value,
    {
        VariableIndexEntry {
            name: String::from_str(name),
            data_type_name: String::from_str(data_type_name),
            initial_value,
            constant,
        }
    }

    /// The name of the variable with the names of the scopes around it.
    pub fn get_qualified_name(&self) -> (result: &str)
        ensures
            result@ == self@.name,
    {
        self.name.as_str()
    }

    /// The name of the declared type.
    pub fn get_type_name(&self) -> (result: &str)
        ensures
            result@ == self@.data_type_name,
    {
        self.data_type_name.as_str()
    }

    /// Whether the variable is declared constant.
    pub fn is_constant(&self) -> (result: bool)
        ensures
            result == self@.constant,
    {
        self.constant
    }
}

/// The declared types and variables of a compilation. No two variables have
/// the same qualified name.
#[derive(Debug, PartialEq)]
pub struct Index {
    types: Vec<DataType>,
    variables: Vec<VariableIndexEntry>,
}

/// The model of an [`Index`].
pub struct IndexView {
    pub types: Seq<DataTypeView>,
    pub variables: Seq<VariableIndexEntryView>,
}

impl IndexView {
    /// The position of the first type from `start` on that is called `name`.
    pub open spec fn type_position_from(self, name: Seq<char>, start: int) -> Option<int>
        decreases self.types.len() - start,
    {
        if start < 0 || start >= self.types.len() {
            None
        } else if self.types[start].name == name {
            Some(start)
        } else {
            self.type_position_from(name, start + 1)
        }
    }

    /// The position of the first type that is called `name`.
    pub open spec fn type_position(self, name: Seq<char>) -> Option<int> {
        self.type_position_from(name, 0)
    }

    /// The type that `name` stands for after at most `hops` aliases were
    /// followed: the first type of that name, or, where that is an alias, the
    /// type that its referenced name stands for.
    pub open spec fn effective_type_position(self, name: Seq<char>, hops: nat) -> Option<int>
        decreases hops,
    {
        match self.type_position(name) {
            None => None,
            Some(i) => match self.types[i].information {
                DataTypeInformationView::Alias { referenced_type, .. } => if hops == 0 {
                    None
                } else {
                    self.effective_type_position(referenced_type, (hops - 1) as nat)
                },
                _ => Some(i),
            },
        }
    }

    /// The type that `name` stands for, with its aliases followed. A chain of
    /// aliases that is longer than the list of types runs in a circle and
    /// stands for no type.
    pub open spec fn effective_type(self, name: Seq<char>) -> Option<DataTypeView> {
        match self.effective_type_position(name, self.types.len()) {
            Some(i) => Some(self.types[i]),
            None => None,
        }
    }

    /// Whether a variable is called `name`.
    pub open spec fn has_variable(self, name: Seq<char>) -> bool {
        exists|i: int| 0 <= i < self.variables.len() && self.variables[i].name == name
    }

    /// Whether no two variables have the same qualified name.
    pub open spec fn names_unique(self) -> bool {
        forall|i: int, j: int|
            0 <= i < self.variables.len() && 0 <= j < self.variables.len()
                && self.variables[i].name == self.variables[j].name ==> i == j
    }
}

/// What a type name stands for depends on the types alone.
pub proof fn lemma_types_decide(a: IndexView, b: IndexView, name: Seq<char>)
    requires
        a.types == b.types,
    ensures
        a.type_position(name) == b.type_position(name),
        a.effective_type(name) == b.effective_type(name),
{
    lemma_types_decide_position(a, b, name, 0);
    lemma_types_decide_hops(a, b, name, a.types.len());
}

proof fn lemma_types_decide_position(a: IndexView, b: IndexView, name: Seq<char>, start: int)
    requires
        a.types == b.types,
    ensures
        a.type_position_from(name, start) == b.type_position_from(name, start),
    decreases a.types.len() - start,
{
    if 0 <= start < a.types.len() && a.types[start].name != name {
        lemma_types_decide_position(a, b, name, start + 1);
    }
}

proof fn lemma_types_decide_hops(a: IndexView, b: IndexView, name: Seq<char>, hops: nat)
    requires
        a.types == b.types,
    ensures
        a.effective_type_position(name, hops) == b.effective_type_position(name, hops),
    decreases hops,
{
    lemma_types_decide_position(a, b, name, 0);
    match a.type_position(name) {
        Some(i) => match a.types[i].information {
            DataTypeInformationView::Alias { referenced_type, .. } => {
                if hops > 0 {
                    lemma_types_decide_hops(a, b, referenced_type, (hops - 1) as nat);
                }
            },
            _ => {},
        },
        None => {},
    }
}

impl View for Index {
    type V = IndexView;

    closed spec fn view(&self) -> IndexView {
        IndexView { types: view_each(self.types@), variables: view_each(self.variables@) }
    }
}

impl Index {
    /// Whether the index keeps its rule: no two variables have the same
    /// qualified name.
    pub open spec fn wf(&self) -> bool {
        self@.names_unique()
    }

    /// An index without types and variables.
    pub fn new() -> (result: Index)
        ensures
            result@.types == Seq::<DataTypeView>::empty(),
            result@.variables == Seq::<VariableIndexEntryView>::empty(),
            result.wf(),
    {
        let result = Index { types: Vec::new(), variables: Vec::new() };
        assert(result@.types =~= Seq::<DataTypeView>::empty());
        assert(result@.variables =~= Seq::<VariableIndexEntryView>::empty());
        result
    }

    /// Registers the types behind those that the index holds.
    pub fn register_types(&mut self, types: Vec<DataType>)
        ensures
            final(self)@.types == old(self)@.types + view_each(types@),
            final(self)@.variables == old(self)@.variables,
    {
        let mut types = types;
        let ghost added = types@;
        self.types.append(&mut types);
        assert(view_each(self.types@) =~= view_each(old(self).types@) + view_each(added));
    }

    /// Registers a type behind those that the index holds.
    pub fn register_type(&mut self, data_type: DataType)
        ensures
            final(self)@.types == old(self)@.types.push(data_type@),
            final(self)@.variables == old(self)@.variables,
    {
        proof {
            lemma_view_each_push(self.types@, data_type);
        }
        self.types.push(data_type);
    }

    /// Registers a variable behind those that the index holds, unless one of
    /// its qualified name is there already: then the index stays as it is and
    /// the entry comes back.
    pub fn register_variable(&mut self, entry: VariableIndexEntry) -> (result: Result<
        (),
        VariableIndexEntry,
    >)
        requires
            old(self).wf(),
        ensures
            final(self).wf(),
            final(self)@.types == old(self)@.types,
            result is Ok <==> !old(self)@.has_variable(entry@.name),
            result is Ok ==> final(self)@.variables == old(self)@.variables.push(entry@),
            result is Err ==> final(self)@.variables == old(self)@.variables && result->Err_0
                == entry,
    {
        let mut i: usize = 0;
        while i < self.variables.len()
            invariant
                i <= self.variables.len(),
                *self == *old(self),
                self.wf(),
                forall|k: int| 0 <= k < i ==> self@.variables[k].name != entry@.name,
            decreases self.variables.len() - i,
        {
            if self.variables[i].name == entry.name {
                assert(self@.variables[i as int].name == entry@.name);
                return Err(entry);
            }
            i += 1;
        }
        proof {
            lemma_view_each_push(self.variables@, entry);
        }
        self.variables.push(entry);
        Ok(())
    }

    /// The entries of all variables, in the order in which they were registered.
    pub fn get_all_variable_entries(&self) -> (result: &Vec<VariableIndexEntry>)
        ensures
            view_each(result@) == self@.variables,
    {
        &self.variables
    }

    /// The first registered type that is called `name`.
    pub fn find_type(&self, name: &str) -> (result: Option<&DataType>)
        ensures
            match result {
                Some(data_type) => {
                    &&& self@.type_position(name@) is Some
                    &&& data_type@ == self@.types[self@.type_position(name@)->Some_0]
                },
                None => self@.type_position(name@) is None,
            },
    {
        let wanted = String::from_str(name);
        let mut i: usize = 0;
        while i < self.types.len()
            invariant
                i <= self.types.len(),
                wanted@ == name@,
                self@.type_position(name@) == self@.type_position_from(name@, i as int),
            decreases self.types.len() - i,
        {
            if self.types[i].name == wanted {
                return Some(&self.types[i]);
            }
            i += 1;
        }
        None
    }

    /// The type that `name` stands for, with its aliases followed.
    pub fn find_effective_type_by_name(&self, name: &str) -> (result: Option<&DataType>)
        ensures
            match result {
                Some(data_type) => self@.effective_type(name@) == Some(data_type@),
                None => self@.effective_type(name@) is None,
            },
    {
        let mut hops: usize = self.types.len();
        let mut current = self.find_type(name);
        let ghost mut current_name = name@;
        loop
            invariant
                hops <= self.types.len(),
                self@.effective_type_position(name@, self@.types.len())
                    == self@.effective_type_position(current_name, hops as nat),
                match current {
                    Some(data_type) => {
                        &&& self@.type_position(current_name) is Some
                        &&& data_type@ == self@.types[self@.type_position(current_name)->Some_0]
                    },
                    None => self@.type_position(current_name) is None,
                },
            decreases hops,
        {
            match current {
                None => {
                    return None;
                },
                Some(data_type) => match &data_type.information {
                    DataTypeInformation::Alias { referenced_type, .. } => {
                        if hops == 0 {
                            return None;
                        }
                        hops -= 1;
                        proof {
                            current_name = referenced_type@;
                        }
                        current = self.find_type(referenced_type.as_str());
                    },
                    _ => {
                        return Some(data_type);
                    },
                },
            }
        }
    }
}

} // verus!
