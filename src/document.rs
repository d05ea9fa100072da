use vstd::prelude::*;

verus! {

/// One entry of a selection set.
#[derive(Debug)]
pub enum SelectionNode {
    /// A field; `ty` is the name of its declared type, absent when the
    /// schema does not resolve it.
    Field { name: String, ty: Option<String>, selections: Vec<SelectionNode> },
    /// `...name`: a reference to a named fragment of the document.
    FragmentSpread { name: String },
    /// `... on T { }`, or `... @directive { }` without a type condition.
    InlineFragment { type_condition: Option<String>, selections: Vec<SelectionNode> },
}

/// The three kinds of operation.
#[derive(Debug, Clone, Copy, PartialEq, Eq, Structural)]
pub enum OperationKind {
    Query,
    Mutation,
    Subscription,
}

/// An operation definition: optional name, kind and selection set.
#[derive(Debug)]
pub struct Operation {
    pub name: Option<String>,
    pub kind: OperationKind,
    pub selections: Vec<SelectionNode>,
}

/// A named fragment with its type condition.
#[derive(Debug)]
pub struct Fragment {
    pub name: String,
    pub type_condition: String,
    pub selections: Vec<SelectionNode>,
}

/// What the analyses read of a parsed request: operations and fragments in
/// source order, and the names of the schema's object types.
#[derive(Debug)]
pub struct Document {
    pub operations: Vec<Operation>,
    pub fragments: Vec<Fragment>,
    pub object_types: Vec<String>,
}

/// The name of the object type that serves as root for operations of kind `k`.
pub open spec fn root_type_name_of(k: OperationKind) -> Seq<char> {
    match k {
        OperationKind::Query => seq!['Q', 'u', 'e', 'r', 'y'],
        OperationKind::Mutation => seq!['M', 'u', 't', 'a', 't', 'i', 'o', 'n'],
        OperationKind::Subscription => seq![
            'S', 'u', 'b', 's', 'c', 'r', 'i', 'p', 't', 'i', 'o', 'n'
        ],
    }
}

/// Whether operation `op` carries the name `n`; an anonymous operation
/// carries none.
pub open spec fn has_name(op: Operation, n: Seq<char>) -> bool {
    match op.name {
        Some(s) => s@ == n,
        None => false,
    }
}

/// Index of the first operation of `ops` named `n`.
pub open spec fn first_named(ops: Seq<Operation>, n: Seq<char>) -> Option<int>
    decreases ops.len(),
{
    if ops.len() == 0 {
        None
    } else {
        match first_named(ops.drop_last(), n) {
            Some(i) => Some(i),
            None => if has_name(ops.last(), n) {
                Some(ops.len() - 1)
            } else {
                None
            },
        }
    }
}

/// Index of the first fragment of `frags` named `n`.
pub open spec fn first_fragment(frags: Seq<Fragment>, n: Seq<char>) -> Option<int>
    decreases frags.len(),
{
    if frags.len() == 0 {
        None
    } else {
        match first_fragment(frags.drop_last(), n) {
            Some(i) => Some(i),
            None => if frags.last().name@ == n {
                Some(frags.len() - 1)
            } else {
                None
            },
        }
    }
}

/// Index of the first string of `names` equal to `n`.
pub open spec fn first_equal(names: Seq<String>, n: Seq<char>) -> Option<int>
    decreases names.len(),
{
    if names.len() == 0 {
        None
    } else {
        match first_equal(names.drop_last(), n) {
            Some(i) => Some(i),
            None => if names.last()@ == n {
                Some(names.len() - 1)
            } else {
                None
            },
        }
    }
}

/// The characters of an optional name.
pub open spec fn name_view(name: Option<&str>) -> Option<Seq<char>> {
    match name {
        Some(s) => Some(s@),
        None => None,
    }
}

/// The operation that a request names: the first one with that name; with
/// no name, the only operation, and none where there are zero or several.
pub open spec fn selected_operation(doc: Document, name: Option<Seq<char>>) -> Option<int> {
    match name {
        Some(n) => first_named(doc.operations@, n),
        None => if doc.operations@.len() == 1 {
            Some(0)
        } else {
            None
        },
    }
}

/// What `first_named` returns, stated without recursion.
pub proof fn lemma_first_named(ops: Seq<Operation>, n: Seq<char>)
    ensures
        match first_named(ops, n) {
            Some(i) => 0 <= i < ops.len() && has_name(ops[i], n) && forall|j: int|
                0 <= j < i ==> !has_name(#[trigger] ops[j], n),
            None => forall|j: int| 0 <= j < ops.len() ==> !has_name(#[trigger] ops[j], n),
        },
    decreases ops.len(),
{
    if ops.len() > 0 {
        lemma_first_named(ops.drop_last(), n);
        assert forall|j: int| 0 <= j < ops.len() - 1 implies ops.drop_last()[j] == ops[j] by {}
    }
}

/// What `first_fragment` returns, stated without recursion.
pub proof fn lemma_first_fragment(frags: Seq<Fragment>, n: Seq<char>)
    ensures
        match first_fragment(frags, n) {
            Some(i) => 0 <= i < frags.len() && frags[i].name@ == n && forall|j: int|
                0 <= j < i ==> (#[trigger] frags[j]).name@ != n,
            None => forall|j: int| 0 <= j < frags.len() ==> (#[trigger] frags[j]).name@ != n,
        },
    decreases frags.len(),
{
    if frags.len() > 0 {
        lemma_first_fragment(frags.drop_last(), n);
        assert forall|j: int| 0 <= j < frags.len() - 1 implies frags.drop_last()[j] == frags[j] by {}
    }
}

/// What `first_equal` returns, stated without recursion.
pub proof fn lemma_first_equal(names: Seq<String>, n: Seq<char>)
    ensures
        match first_equal(names, n) {
            Some(i) => 0 <= i < names.len() && names[i]@ == n && forall|j: int|
                0 <= j < i ==> (#[trigger] names[j])@ != n,
            None => forall|j: int| 0 <= j < names.len() ==> (#[trigger] names[j])@ != n,
        },
    decreases names.len(),
{
    if names.len() > 0 {
        lemma_first_equal(names.drop_last(), n);
        assert forall|j: int| 0 <= j < names.len() - 1 implies names.drop_last()[j] == names[j] by {}
    }
}

fn str_eq(a: &String, b: &str) -> (r: bool)
    ensures
        r == (a@ == b@),
{
    let b2 = b.to_owned();
    *a == b2
}

impl OperationKind {
    /// The object type name that roots operations of this kind.
    pub fn root_type_name(&self) -> (r: &'static str)
        ensures
            r@ == root_type_name_of(*self),
    {
        match self {
            OperationKind::Query => {
                proof { reveal_strlit("Query"); }
                "Query"
            },
            OperationKind::Mutation => {
                proof { reveal_strlit("Mutation"); }
                "Mutation"
            },
            OperationKind::Subscription => {
                proof { reveal_strlit("Subscription"); }
                "Subscription"
            },
        }
    }
}

impl Document {
    /// The operation that the request names, or the only one when no name is
    /// given; `None` where no operation has that name, or where the document
    /// holds zero or several operations and no name is given.
    pub fn operation_by_name(&self, operation_name: Option<&str>) -> (r: Option<&Operation>)
        ensures
            match selected_operation(*self, name_view(operation_name)) {
                Some(i) => r == Some(&self.operations@[i]),
                None => r is None,
            },
    {
        match operation_name {
            Some(n) => {
                let mut i: usize = 0;
                while i < self.operations.len()
                    invariant
                        0 <= i <= self.operations@.len(),
                        operation_name == Some(n),
                        forall|j: int| 0 <= j < i ==> !has_name(#[trigger] self.operations@[j], n@),
                    decreases self.operations@.len() - i,
                {
                    let op = &self.operations[i];
                    let hit = match &op.name {
                        Some(s) => str_eq(s, n),
                        None => false,
                    };
                    if hit {
                        proof {
                            lemma_first_named(self.operations@, n@);
                            assert(has_name(self.operations@[i as int], n@));
                        }
                        return Some(op);
                    }
                    i = i + 1;
                }
                proof { lemma_first_named(self.operations@, n@); }
                None
            },
            None => {
                if self.operations.len() == 1 {
                    Some(&self.operations[0])
                } else {
                    None
                }
            },
        }
    }

    /// The object type whose name is the root type name of `operation`'s
    /// kind, the first such in the schema.
    pub fn operation_root_type(&self, operation: &Operation) -> (r: Option<&String>)
        ensures
            match first_equal(self.object_types@, root_type_name_of(operation.kind)) {
                Some(i) => r == Some(&self.object_types@[i]),
                None => r is None,
            },
            r matches Some(t) ==> t@ == root_type_name_of(operation.kind),
    {
        let want = operation.kind.root_type_name();
        let mut i: usize = 0;
        while i < self.object_types.len()
            invariant
                0 <= i <= self.object_types@.len(),
                want@ == root_type_name_of(operation.kind),
                forall|j: int| 0 <= j < i ==> (#[trigger] self.object_types@[j])@ != want@,
            decreases self.object_types@.len() - i,
        {
            if str_eq(&self.object_types[i], want) {
                proof { lemma_first_equal(self.object_types@, want@); }
                return Some(&self.object_types[i]);
            }
            i = i + 1;
        }
        proof { lemma_first_equal(self.object_types@, want@); }
        None
    }

    /// The first fragment named `name`.
    pub fn fragment_by_name(&self, name: &String) -> (r: Option<&Fragment>)
        ensures
            match first_fragment(self.fragments@, name@) {
                Some(i) => r == Some(&self.fragments@[i]),
                None => r is None,
            },
    {
        let mut i: usize = 0;
        while i < self.fragments.len()
            invariant
                0 <= i <= self.fragments@.len(),
                forall|j: int| 0 <= j < i ==> (#[trigger] self.fragments@[j]).name@ != name@,
            decreases self.fragments@.len() - i,
        {
            if self.fragments[i].name == *name {
                proof { lemma_first_fragment(self.fragments@, name@); }
                return Some(&self.fragments[i]);
            }
            i = i + 1;
        }
        proof { lemma_first_fragment(self.fragments@, name@); }
        None
    }
}

} // verus!

verus! {

/// How many selection sets nest in `sels`: none for an empty set, else one
/// more than the deepest set below its fields and inline fragments.
pub open spec fn nest_height(sels: Seq<SelectionNode>) -> nat
    decreases sels,
{
    if sels.len() == 0 {
        0
    } else {
        let a = nest_height(sels.drop_last());
        let b: nat = match sels.last() {
            SelectionNode::Field { selections, .. } => 1 + nest_height(selections@),
            SelectionNode::InlineFragment { selections, .. } => 1 + nest_height(selections@),
            SelectionNode::FragmentSpread { .. } => 1,
        };
        if a >= b { a } else { b }
    }
}

/// Whether no selection set of `doc`, in an operation or a fragment, nests
/// deeper than `limit`.
pub open spec fn nests_within(doc: Document, limit: nat) -> bool {
    &&& forall|i: int| 0 <= i < doc.operations@.len() ==> nest_height((#[trigger] doc.operations@[i]).selections@) <= limit
    &&& forall|k: int| 0 <= k < doc.fragments@.len() ==> nest_height((#[trigger] doc.fragments@[k]).selections@) <= limit
}

proof fn lemma_height_prefix(sels: Seq<SelectionNode>, j: int)
    requires
        0 <= j <= sels.len(),
    ensures
        nest_height(sels.subrange(0, j)) <= nest_height(sels),
    decreases sels.len() - j,
{
    if j < sels.len() {
        assert(sels.subrange(0, j + 1).drop_last() =~= sels.subrange(0, j));
        lemma_height_prefix(sels, j + 1);
    } else {
        assert(sels.subrange(0, j) =~= sels);
    }
}

/// Whether `sels` nests at most `limit` selection sets deep.
pub fn height_within(sels: &Vec<SelectionNode>, limit: usize) -> (r: bool)
    ensures
        r == (nest_height(sels@) <= limit),
    decreases sels@,
{
    let mut i: usize = 0;
    assert(sels@.subrange(0, 0) =~= Seq::<SelectionNode>::empty());
    while i < sels.len()
        invariant
            0 <= i <= sels@.len(),
            nest_height(sels@.subrange(0, i as int)) <= limit,
        decreases sels@.len() - i,
    {
        proof {
            assert(sels@.subrange(0, i as int + 1).drop_last() =~= sels@.subrange(0, i as int));
            assert(sels@.subrange(0, i as int + 1).last() == sels@[i as int]);
            lemma_height_prefix(sels@, i as int + 1);
        }
        let fits = match &sels[i] {
            SelectionNode::Field { selections, .. } => limit > 0 && height_within(selections, limit - 1),
            SelectionNode::InlineFragment { selections, .. } => limit > 0 && height_within(selections, limit - 1),
            SelectionNode::FragmentSpread { .. } => limit > 0,
        };
        if !fits {
            return false;
        }
        i = i + 1;
    }
    proof { assert(sels@.subrange(0, sels@.len() as int) =~= sels@); }
    true
}

impl Document {
    /// Whether no selection set of this document nests deeper than `limit`.
    pub fn nests_within(&self, limit: usize) -> (r: bool)
        ensures
            r == nests_within(*self, limit as nat),
    {
        let mut i: usize = 0;
        while i < self.operations.len()
            invariant
                0 <= i <= self.operations@.len(),
                forall|j: int| 0 <= j < i ==> nest_height((#[trigger] self.operations@[j]).selections@) <= limit,
            decreases self.operations@.len() - i,
        {
            if !height_within(&self.operations[i].selections, limit) {
                return false;
            }
            i = i + 1;
        }
        let mut k: usize = 0;
        while k < self.fragments.len()
            invariant
                0 <= k <= self.fragments@.len(),
                forall|j: int| 0 <= j < self.operations@.len() ==> nest_height((#[trigger] self.operations@[j]).selections@) <= limit,
                forall|j: int| 0 <= j < k ==> nest_height((#[trigger] self.fragments@[j]).selections@) <= limit,
            decreases self.fragments@.len() - k,
        {
            if !height_within(&self.fragments[k].selections, limit) {
                return false;
            }
            k = k + 1;
        }
        true
    }
}

} // verus!
