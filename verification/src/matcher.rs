//! Matching a host type against a reflected block layout.
//!
//! Matching reports the first difference it meets and stops there. The
//! order is fixed: first the kind of node, then the reflected members in
//! their order (each must be declared by the host), then the host fields in
//! declaration order (each must be found and must match inside).

use vstd::prelude::*;
use crate::host::{fields_model, FieldView, HostField, HostType, HostView};
use crate::layout::{members_model, ArrayShape, BlockLayout, LayoutView};
use crate::mismatch::{LayoutMismatchError, MismatchView};
use crate::search::{first_index, lemma_first_index};

verus! {

/// Whether one of `fields` is called `name`.
pub open spec fn declares(fields: Seq<FieldView>, name: Seq<char>) -> bool {
    exists|i: int| 0 <= i < fields.len() && (#[trigger] fields[i]).name == name
}

/// The test "member `j` is called `name`".
pub open spec fn is_named(members: Seq<(Seq<char>, LayoutView)>, name: Seq<char>) -> spec_fn(
    int,
) -> bool {
    |j: int| members[j].0 == name
}

/// The test "no field is named after member `j`".
pub open spec fn is_stray(
    fields: Seq<FieldView>,
    members: Seq<(Seq<char>, LayoutView)>,
) -> spec_fn(int) -> bool {
    |j: int| !declares(fields, members[j].0)
}

/// The test "outcome `i` is an error".
pub open spec fn is_failure(outcomes: Seq<Result<(), MismatchView>>) -> spec_fn(int) -> bool {
    |i: int| outcomes[i] is Err
}

/// Index of the first of `members` that is called `name`.
pub open spec fn member_named(members: Seq<(Seq<char>, LayoutView)>, name: Seq<char>) -> Option<
    int,
> {
    first_index(members.len() as int, is_named(members, name))
}

/// Index of the first of `members` whose name none of `fields` has.
pub open spec fn undeclared_member(
    fields: Seq<FieldView>,
    members: Seq<(Seq<char>, LayoutView)>,
) -> Option<int> {
    first_index(members.len() as int, is_stray(fields, members))
}

/// The first error among `outcomes`, or success where there is none.
pub open spec fn first_failure(outcomes: Seq<Result<(), MismatchView>>) -> Result<
    (),
    MismatchView,
> {
    match first_index(outcomes.len() as int, is_failure(outcomes)) {
        Some(i) => outcomes[i],
        None => Ok(()),
    }
}

/// `member_named` finds the first member of that name, and finds nothing
/// only where no member has it.
pub proof fn lemma_member_named(members: Seq<(Seq<char>, LayoutView)>, name: Seq<char>)
    ensures
        match member_named(members, name) {
            Some(j) => {
                &&& 0 <= j < members.len()
                &&& members[j].0 == name
                &&& forall|k: int| 0 <= k < j ==> (#[trigger] members[k]).0 != name
            },
            None => forall|k: int| 0 <= k < members.len() ==> (#[trigger] members[k]).0 != name,
        },
{
    let called = is_named(members, name);
    lemma_first_index(members.len() as int, called);
    match first_index(members.len() as int, called) {
        Some(j) => {
            assert(called(j));
            assert forall|k: int| 0 <= k < j implies (#[trigger] members[k]).0 != name by {
                assert(!called(k));
            }
        },
        None => {
            assert forall|k: int| 0 <= k < members.len() implies (#[trigger] members[k]).0
                != name by {
                assert(!called(k));
            }
        },
    }
}

/// `undeclared_member` finds the first member that no field is named
/// after, and finds nothing only where every member is declared.
pub proof fn lemma_undeclared_member(
    fields: Seq<FieldView>,
    members: Seq<(Seq<char>, LayoutView)>,
)
    ensures
        match undeclared_member(fields, members) {
            Some(j) => {
                &&& 0 <= j < members.len()
                &&& !declares(fields, members[j].0)
                &&& forall|k: int| 0 <= k < j ==> declares(fields, (#[trigger] members[k]).0)
            },
            None => forall|k: int|
                0 <= k < members.len() ==> declares(fields, (#[trigger] members[k]).0),
        },
{
    let stray = is_stray(fields, members);
    lemma_first_index(members.len() as int, stray);
    assert forall|k: int| 0 <= k < members.len() && !stray(k) implies declares(
        fields,
        (#[trigger] members[k]).0,
    ) by {}
}

/// `first_failure` is the first error in the sequence, and is success only
/// where the sequence holds no error.
pub proof fn lemma_first_failure(outcomes: Seq<Result<(), MismatchView>>)
    ensures
        first_failure(outcomes) is Ok <==> forall|k: int|
            0 <= k < outcomes.len() ==> (#[trigger] outcomes[k]) is Ok,
        first_failure(outcomes) is Ok ==> first_failure(outcomes) == Ok::<(), MismatchView>(()),
        first_failure(outcomes) is Err ==> exists|i: int|
            {
                &&& 0 <= i < outcomes.len()
                &&& #[trigger] outcomes[i] == first_failure(outcomes)
                &&& forall|k: int| 0 <= k < i ==> (#[trigger] outcomes[k]) is Ok
            },
{
    let failed = is_failure(outcomes);
    lemma_first_index(outcomes.len() as int, failed);
    assert forall|k: int| 0 <= k < outcomes.len() && !failed(k) implies (
    #[trigger] outcomes[k]) is Ok by {}
    match first_index(outcomes.len() as int, failed) {
        Some(i) => {
            assert(failed(i));
            assert(outcomes[i] == first_failure(outcomes));
        },
        None => {},
    }
}

/// What matching one host field against the members of a reflected struct
/// gives: the field must be found by name, and its type must match the
/// member found, placed at the field's offset past `base`.
pub open spec fn field_outcome(
    field: FieldView,
    members: Seq<(Seq<char>, LayoutView)>,
    base: int,
) -> Result<(), MismatchView>
    decreases field,
{
    match member_named(members, field.name) {
        None => Err(MismatchView::MissingField { name: field.name }),
        Some(j) => match match_outcome(field.ty, members[j].1, field.offset + base) {
            Ok(_) => Ok(()),
            Err(cause) => Err(
                MismatchView::MemberMismatch { member: field.name, cause: Box::new(cause) },
            ),
        },
    }
}

/// The outcomes of all fields, in declaration order.
pub open spec fn field_outcomes(
    fields: Seq<FieldView>,
    members: Seq<(Seq<char>, LayoutView)>,
    base: int,
) -> Seq<Result<(), MismatchView>>
    decreases fields,
{
    Seq::new(
        fields.len(),
        |i: int|
            if 0 <= i < fields.len() {
                field_outcome(fields[i], members, base)
            } else {
                arbitrary()
            },
    )
}

/// What matching `host`, placed at `base`, against `reflected` gives.
///
/// A leaf matches exactly the layout it asks for. An aggregate matches a
/// struct in which every member is declared by the host and every host
/// field is found and matches inside; the first member that is not
/// declared, else the first field that fails, decides the error.
pub open spec fn match_outcome(host: HostView, reflected: LayoutView, base: int) -> Result<
    (),
    MismatchView,
>
    decreases host,
{
    match host {
        HostView::Leaf { .. } => if reflected == host.layout(base) {
            Ok(())
        } else {
            Err(MismatchView::LayoutMismatch { expected: host.layout(base), obtained: reflected })
        },
        HostView::Aggregate { fields } => match reflected {
            LayoutView::Leaf { .. } => Err(
                MismatchView::LayoutMismatch { expected: host.layout(base), obtained: reflected },
            ),
            LayoutView::Struct { members } => match undeclared_member(fields, members) {
                Some(j) => Err(MismatchView::MissingField { name: members[j].0 }),
                None => first_failure(field_outcomes(fields, members, base)),
            },
        },
    }
}

/// The model of what `matches` returns.
pub open spec fn outcome_view(outcome: Result<(), LayoutMismatchError>) -> Result<(), MismatchView> {
    match outcome {
        Ok(_) => Ok(()),
        Err(e) => Err(e@),
    }
}

/// Whether `reflected` has what `host`, placed at `base`, asks for: a leaf
/// is exactly the leaf asked for; a struct has no member that the host does
/// not declare, and for every field of the host the first member of that
/// name has what the field's type asks for.
pub open spec fn conforms(host: HostView, reflected: LayoutView, base: int) -> bool
    decreases host,
{
    match host {
        HostView::Leaf { .. } => reflected == host.layout(base),
        HostView::Aggregate { fields } => {
            &&& reflected is Struct
            &&& forall|j: int|
                0 <= j < reflected->members.len() ==> declares(
                    fields,
                    (#[trigger] reflected->members[j]).0,
                )
            &&& forall|i: int|
                0 <= i < fields.len() ==> match member_named(
                    reflected->members,
                    (#[trigger] fields[i]).name,
                ) {
                    Some(j) => conforms(
                        fields[i].ty,
                        reflected->members[j].1,
                        fields[i].offset + base,
                    ),
                    None => false,
                }
        },
    }
}

/// What a struct resolves `name` to: the layout of its first member of that
/// name.
pub open spec fn lookup(members: Seq<(Seq<char>, LayoutView)>, name: Seq<char>) -> Option<
    LayoutView,
> {
    match member_named(members, name) {
        Some(j) => Some(members[j].1),
        None => None,
    }
}

/// Matching succeeds exactly where the reflected layout conforms to the
/// host type.
pub proof fn lemma_match_succeeds_iff_conforms(host: HostView, reflected: LayoutView, base: int)
    ensures
        match_outcome(host, reflected, base) is Ok <==> conforms(host, reflected, base),
        match_outcome(host, reflected, base) is Ok ==> match_outcome(host, reflected, base) == Ok::<
            (),
            MismatchView,
        >(()),
    decreases host,
{
    match host {
        HostView::Leaf { .. } => {},
        HostView::Aggregate { fields } => {
            match reflected {
                LayoutView::Leaf { .. } => {},
                LayoutView::Struct { members } => {
                    let outcomes = field_outcomes(fields, members, base);
                    lemma_undeclared_member(fields, members);
                    lemma_first_failure(outcomes);
                    assert forall|i: int| 0 <= i < fields.len() implies ((
                    #[trigger] outcomes[i]) is Ok <==> match member_named(members, fields[i].name) {
                        Some(j) => conforms(fields[i].ty, members[j].1, fields[i].offset + base),
                        None => false,
                    }) by {
                        lemma_member_named(members, fields[i].name);
                        match member_named(members, fields[i].name) {
                            Some(j) => {
                                lemma_match_succeeds_iff_conforms(
                                    fields[i].ty,
                                    members[j].1,
                                    fields[i].offset + base,
                                );
                            },
                            None => {},
                        }
                    }
                    if conforms(host, reflected, base) {
                        assert forall|k: int| 0 <= k < outcomes.len() implies (
                        #[trigger] outcomes[k]) is Ok by {
                            assert(fields[k].name == fields[k].name);
                        }
                    }
                    if match_outcome(host, reflected, base) is Ok {
                        assert forall|i: int| 0 <= i < fields.len() implies match member_named(
                            members,
                            (#[trigger] fields[i]).name,
                        ) {
                            Some(j) => conforms(fields[i].ty, members[j].1, fields[i].offset + base),
                            None => false,
                        } by {
                            assert(outcomes[i] is Ok);
                        }
                    }
                },
            }
        },
    }
}

/// The order of the members of a reflected struct does not decide whether
/// a host type matches it: two structs that resolve every name to the same
/// layout are matched by the same host types.
pub proof fn lemma_match_depends_on_lookup_only(
    host: HostView,
    first: Seq<(Seq<char>, LayoutView)>,
    second: Seq<(Seq<char>, LayoutView)>,
    base: int,
)
    requires
        forall|name: Seq<char>| lookup(first, name) == lookup(second, name),
    ensures
        match_outcome(host, LayoutView::Struct { members: first }, base) is Ok <==> match_outcome(
            host,
            LayoutView::Struct { members: second },
            base,
        ) is Ok,
{
    lemma_match_succeeds_iff_conforms(host, LayoutView::Struct { members: first }, base);
    lemma_match_succeeds_iff_conforms(host, LayoutView::Struct { members: second }, base);
    if conforms(host, LayoutView::Struct { members: first }, base) {
        lemma_conforms_depends_on_lookup_only(host, first, second, base);
    }
    if conforms(host, LayoutView::Struct { members: second }, base) {
        lemma_conforms_depends_on_lookup_only(host, second, first, base);
    }
}

/// `members` with the members at `i` and `i + 1` exchanged.
pub open spec fn exchanged(members: Seq<(Seq<char>, LayoutView)>, i: int) -> Seq<
    (Seq<char>, LayoutView),
> {
    members.update(i, members[i + 1]).update(i + 1, members[i])
}

/// Exchanging two neighbouring members of different names changes nothing
/// in what a struct resolves a name to.
pub proof fn lemma_exchange_keeps_lookup(
    members: Seq<(Seq<char>, LayoutView)>,
    i: int,
    name: Seq<char>,
)
    requires
        0 <= i,
        i + 1 < members.len(),
        members[i].0 != members[i + 1].0,
    ensures
        lookup(exchanged(members, i), name) == lookup(members, name),
{
    let other = exchanged(members, i);
    lemma_member_named(members, name);
    lemma_member_named(other, name);
    assert(other[i] == members[i + 1]);
    assert(other[i + 1] == members[i]);
    assert forall|k: int| 0 <= k < members.len() && k != i && k != i + 1 implies #[trigger] other[k]
        == members[k] by {}
    match member_named(members, name) {
        Some(j) => {
            let moved = if j == i {
                i + 1
            } else if j == i + 1 {
                i
            } else {
                j
            };
            assert(other[moved] == members[j]);
            assert forall|k: int| 0 <= k < moved implies (#[trigger] other[k]).0 != name by {
                if k == i {
                    assert(other[k] == members[i + 1]);
                } else if k == i + 1 {
                    assert(other[k] == members[i]);
                } else {
                    assert(other[k] == members[k]);
                }
            }
            assert(member_named(other, name) == Some(moved));
        },
        None => {
            assert forall|k: int| 0 <= k < other.len() implies (#[trigger] other[k]).0 != name by {
                if k == i {
                    assert(other[k] == members[i + 1]);
                } else if k == i + 1 {
                    assert(other[k] == members[i]);
                } else {
                    assert(other[k] == members[k]);
                }
            }
        },
    }
}

/// Exchanging two neighbouring members of different names does not change
/// whether a host type matches the struct.
pub proof fn lemma_exchange_keeps_match(
    host: HostView,
    members: Seq<(Seq<char>, LayoutView)>,
    i: int,
    base: int,
)
    requires
        0 <= i,
        i + 1 < members.len(),
        members[i].0 != members[i + 1].0,
    ensures
        match_outcome(host, LayoutView::Struct { members: exchanged(members, i) }, base) is Ok
            <==> match_outcome(host, LayoutView::Struct { members }, base) is Ok,
{
    assert forall|name: Seq<char>| lookup(exchanged(members, i), name) == lookup(
        members,
        name,
    ) by {
        lemma_exchange_keeps_lookup(members, i, name);
    }
    lemma_match_depends_on_lookup_only(host, exchanged(members, i), members, base);
}

/// One direction of `lemma_match_depends_on_lookup_only`, over `conforms`.
proof fn lemma_conforms_depends_on_lookup_only(
    host: HostView,
    first: Seq<(Seq<char>, LayoutView)>,
    second: Seq<(Seq<char>, LayoutView)>,
    base: int,
)
    requires
        forall|name: Seq<char>| lookup(first, name) == lookup(second, name),
        conforms(host, LayoutView::Struct { members: first }, base),
    ensures
        conforms(host, LayoutView::Struct { members: second }, base),
{
    match host {
        HostView::Leaf { .. } => {},
        HostView::Aggregate { fields } => {
            assert forall|j: int| 0 <= j < second.len() implies declares(
                fields,
                (#[trigger] second[j]).0,
            ) by {
                let name = second[j].0;
                lemma_member_named(second, name);
                lemma_member_named(first, name);
                assert(lookup(first, name) == lookup(second, name));
                let at = member_named(first, name)->0;
                assert(declares(fields, first[at].0));
            }
            assert forall|i: int| 0 <= i < fields.len() implies match member_named(
                second,
                (#[trigger] fields[i]).name,
            ) {
                Some(j) => conforms(fields[i].ty, second[j].1, fields[i].offset + base),
                None => false,
            } by {
                assert(lookup(first, fields[i].name) == lookup(second, fields[i].name));
            }
        },
    }
}

/// A host type whose aggregates each give their fields distinct names
/// matches the layout that it asks for itself, at every base.
pub proof fn lemma_round_trip(host: HostView, base: int)
    requires
        host.names_distinct(),
    ensures
        match_outcome(host, host.layout(base), base) == Ok::<(), MismatchView>(()),
    decreases host,
{
    match host {
        HostView::Leaf { .. } => {},
        HostView::Aggregate { fields } => {
            let members = host.layout(base)->members;
            lemma_undeclared_member(fields, members);
            assert forall|j: int| 0 <= j < members.len() implies declares(
                fields,
                (#[trigger] members[j]).0,
            ) by {
                assert(fields[j].name == members[j].0);
            }
            let outcomes = field_outcomes(fields, members, base);
            assert forall|i: int| 0 <= i < outcomes.len() implies (#[trigger] outcomes[i]) is Ok by {
                lemma_member_named(members, fields[i].name);
                assert(members[i].0 == fields[i].name);
                assert forall|k: int| 0 <= k < i implies (#[trigger] members[k]).0
                    != fields[i].name by {
                    assert(fields[k].name != fields[i].name);
                }
                assert(member_named(members, fields[i].name) == Some(i));
                lemma_round_trip(fields[i].ty, fields[i].offset + base);
            }
            lemma_first_failure(outcomes);
        },
    }
}

/// Whether `path` names a field of `host`, then a field of that field's
/// type, and so on.
pub open spec fn leads_into(host: HostView, path: Seq<Seq<char>>) -> bool
    decreases path.len(),
{
    if path.len() == 0 {
        true
    } else {
        &&& host is Aggregate
        &&& exists|i: int|
            0 <= i < host->fields.len() && (#[trigger] host->fields[i]).name == path[0]
                && leads_into(host->fields[i].ty, path.drop_first())
    }
}

/// The path that a failed match reports leads into the host type, and the
/// error at its end is not a wrapper.
pub proof fn lemma_error_path_leads_into_host(host: HostView, reflected: LayoutView, base: int)
    requires
        match_outcome(host, reflected, base) is Err,
    ensures
        leads_into(host, match_outcome(host, reflected, base)->Err_0.path()),
        !(match_outcome(host, reflected, base)->Err_0.root_cause() is MemberMismatch),
    decreases host,
{
    let error = match_outcome(host, reflected, base)->Err_0;
    match host {
        HostView::Leaf { .. } => {
            assert(error.path() =~= Seq::<Seq<char>>::empty());
        },
        HostView::Aggregate { fields } => {
            match reflected {
                LayoutView::Leaf { .. } => {
                    assert(error.path() =~= Seq::<Seq<char>>::empty());
                },
                LayoutView::Struct { members } => {
                    match undeclared_member(fields, members) {
                        Some(j) => {
                            assert(error.path() =~= Seq::<Seq<char>>::empty());
                        },
                        None => {
                            let outcomes = field_outcomes(fields, members, base);
                            lemma_first_failure(outcomes);
                            let i = choose|i: int|
                                0 <= i < outcomes.len() && #[trigger] outcomes[i] == first_failure(
                                    outcomes,
                                );
                            match member_named(members, fields[i].name) {
                                None => {
                                    assert(error.path() =~= Seq::<Seq<char>>::empty());
                                },
                                Some(j) => {
                                    let inner = match_outcome(
                                        fields[i].ty,
                                        members[j].1,
                                        fields[i].offset + base,
                                    );
                                    lemma_error_path_leads_into_host(
                                        fields[i].ty,
                                        members[j].1,
                                        fields[i].offset + base,
                                    );
                                    let cause = inner->Err_0;
                                    assert(error == MismatchView::MemberMismatch {
                                        member: fields[i].name,
                                        cause: Box::new(cause),
                                    });
                                    assert(error.path() =~= seq![fields[i].name] + cause.path());
                                    assert(error.path().drop_first() =~= cause.path());
                                    assert(error.path()[0] == fields[i].name);
                                },
                            }
                        },
                    }
                },
            }
        },
    }
}

/// A host type whose aggregates each give their fields distinct names
/// matches the layout that `build_layout` gives for it, at the same base.
pub proof fn lemma_matches_own_layout(
    host: HostType,
    base_offset: usize,
    layout: BlockLayout,
    outcome: Result<(), LayoutMismatchError>,
)
    requires
        host@.names_distinct(),
        call_ensures(HostType::build_layout, (&host, base_offset), layout),
        call_ensures(HostType::matches, (&host, &layout, base_offset), outcome),
    ensures
        outcome is Ok,
{
    lemma_round_trip(host@, base_offset as int);
}

/// Whether one of `fields` is called `name`.
fn declares_name(fields: &Vec<HostField>, name: &String) -> (found: bool)
    ensures
        found == declares(fields_model(fields@), name@),
{
    let mut i: usize = 0;
    while i < fields.len()
        invariant
            i <= fields.len(),
            forall|k: int| 0 <= k < i ==> (#[trigger] fields_model(fields@)[k]).name != name@,
        decreases fields.len() - i,
    {
        if fields[i].name == *name {
            assert(fields_model(fields@)[i as int].name == name@);
            return true;
        }
        i += 1;
    }
    false
}

/// Index of the first of `members` that is called `name`.
fn find_member(members: &Vec<(String, BlockLayout)>, name: &String) -> (found: Option<usize>)
    ensures
        match found {
            Some(j) => j < members.len() && member_named(members_model(members@), name@) == Some(
                j as int,
            ),
            None => member_named(members_model(members@), name@) is None,
        },
{
    let mut j: usize = 0;
    while j < members.len()
        invariant
            j <= members.len(),
            forall|k: int| 0 <= k < j ==> (#[trigger] members_model(members@)[k]).0 != name@,
        decreases members.len() - j,
    {
        if members[j].0 == *name {
            proof {
                assert(members_model(members@)[j as int].0 == name@);
                lemma_member_named(members_model(members@), name@);
            }
            return Some(j);
        }
        j += 1;
    }
    proof {
        lemma_member_named(members_model(members@), name@);
    }
    None
}

/// Index of the first of `members` that none of `fields` is named after.
fn find_undeclared(fields: &Vec<HostField>, members: &Vec<(String, BlockLayout)>) -> (found: Option<
    usize,
>)
    ensures
        match found {
            Some(j) => j < members.len() && undeclared_member(
                fields_model(fields@),
                members_model(members@),
            ) == Some(j as int),
            None => undeclared_member(fields_model(fields@), members_model(members@)) is None,
        },
{
    let ghost declared = fields_model(fields@);
    let ghost given = members_model(members@);
    let mut j: usize = 0;
    while j < members.len()
        invariant
            j <= members.len(),
            declared == fields_model(fields@),
            given == members_model(members@),
            forall|k: int| 0 <= k < j ==> declares(declared, (#[trigger] given[k]).0),
        decreases members.len() - j,
    {
        if !declares_name(fields, &members[j].0) {
            proof {
                assert(!declares(declared, given[j as int].0));
                lemma_undeclared_member(declared, given);
            }
            return Some(j);
        }
        assert(declares(declared, given[j as int].0));
        j += 1;
    }
    proof {
        lemma_undeclared_member(declared, given);
    }
    None
}

/// Whether two optional array shapes are the same.
fn same_array(a: &Option<ArrayShape>, b: &Option<ArrayShape>) -> (same: bool)
    ensures
        same == (*a == *b),
{
    match (a, b) {
        (None, None) => true,
        (Some(x), Some(y)) => x.stride == y.stride && x.count == y.count,
        _ => false,
    }
}

impl HostType {
    /// Checks that `reflected` is the layout of this type placed at
    /// `base_offset`, up to the order of struct members, and says where the
    /// two differ if it is not.
    ///
    /// The first difference found is returned; later ones are not looked
    /// for. An error inside a field is wrapped in `MemberMismatch` with the
    /// field's name, so the result carries the path to the difference.
    pub fn matches(&self, reflected: &BlockLayout, base_offset: usize) -> (outcome: Result<
        (),
        LayoutMismatchError,
    >)
        requires
            self@.fits(base_offset as int),
        ensures
            outcome_view(outcome) == match_outcome(self@, reflected@, base_offset as int),
            outcome is Ok <==> conforms(self@, reflected@, base_offset as int),
    {
        proof {
            lemma_match_succeeds_iff_conforms(self@, reflected@, base_offset as int);
        }
        self.first_difference(reflected, base_offset)
    }

    /// The comparison behind `matches`: walks both trees until they differ.
    fn first_difference(&self, reflected: &BlockLayout, base_offset: usize) -> (outcome: Result<
        (),
        LayoutMismatchError,
    >)
        requires
            self@.fits(base_offset as int),
        ensures
            outcome_view(outcome) == match_outcome(self@, reflected@, base_offset as int),
        decreases self,
    {
        match (self, reflected) {
            (
                HostType::Leaf { tag, array },
                BlockLayout::Leaf { tag: found_tag, offset, array: found_array },
            ) => {
                if *found_tag == *tag && *offset == base_offset && same_array(found_array, array) {
                    Ok(())
                } else {
                    Err(self.layout_mismatch(reflected, base_offset))
                }
            },
            (HostType::Aggregate { fields }, BlockLayout::Struct { members }) => {
                proof {
                    self.lemma_view_of_fields();
                    reflected.lemma_view_of_members();
                }
                if let Some(stray) = find_undeclared(fields, members) {
                    return Err(
                        LayoutMismatchError::MissingField { name: members[stray].0.clone() },
                    );
                }
                let ghost declared = self@->fields;
                let ghost given = reflected@->members;
                let ghost outcomes = field_outcomes(declared, given, base_offset as int);
                let mut i: usize = 0;
                while i < fields.len()
                    invariant
                        i <= fields.len(),
                        self is Aggregate,
                        self->fields == *fields,
                        self@.fits(base_offset as int),
                        self@ == (HostView::Aggregate { fields: declared }),
                        reflected@ == (LayoutView::Struct { members: given }),
                        undeclared_member(declared, given) is None,
                        declared == fields_model(fields@),
                        given == members_model(members@),
                        outcomes == field_outcomes(declared, given, base_offset as int),
                        forall|k: int| 0 <= k < i ==> (#[trigger] outcomes[k]) is Ok,
                    decreases fields.len() - i,
                {
                    proof {
                        assert(declared[i as int] == fields[i as int]@);
                        assert(decreases_to!(self => fields[i as int].ty));
                        fields[i as int].ty@.lemma_fits_bounds_base(
                            fields[i as int].offset + base_offset,
                        );
                        lemma_first_failure(outcomes);
                    }
                    let field = &fields[i];
                    match find_member(members, &field.name) {
                        None => {
                            return Err(
                                LayoutMismatchError::MissingField { name: field.name.clone() },
                            );
                        },
                        Some(at) => {
                            let inner = field.ty.first_difference(
                                &members[at].1,
                                field.offset + base_offset,
                            );
                            if let Err(cause) = inner {
                                return Err(
                                    LayoutMismatchError::MemberMismatch {
                                        member: field.name.clone(),
                                        cause: Box::new(cause),
                                    },
                                );
                            }
                        },
                    }
                    assert(outcomes[i as int] is Ok);
                    i += 1;
                }
                proof {
                    lemma_first_failure(outcomes);
                }
                Ok(())
            },
            _ => Err(self.layout_mismatch(reflected, base_offset)),
        }
    }

    /// The error for a reflected layout of another kind, or another leaf,
    /// than this type asks for.
    fn layout_mismatch(&self, reflected: &BlockLayout, base_offset: usize) -> (error:
        LayoutMismatchError)
        requires
            self@.fits(base_offset as int),
        ensures
            error@ == (MismatchView::LayoutMismatch {
                expected: self@.layout(base_offset as int),
                obtained: reflected@,
            }),
    {
        LayoutMismatchError::LayoutMismatch {
            expected: self.build_layout(base_offset),
            obtained: reflected.clone(),
        }
    }
}

} // verus!
