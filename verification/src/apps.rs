use arrayvec::ArrayVec;
use vstd::prelude::*;
use vstd::string::StrSliceExecFns;

use crate::vm::ElfImage;

verus! {

/// A program that can be started by name.
pub struct App {
    pub name: String,
    pub image: ElfImage,
}

/// The most characters that the name of a program has.
pub const MAX_NAME_CHARS: usize = 16;

impl App {
    /// The name is no longer than a name may be.
    pub open spec fn valid(&self) -> bool {
        self.name@.len() <= MAX_NAME_CHARS
    }

    /// Whether the name is no longer than a name may be.
    pub fn is_valid(&self) -> (b: bool)
        ensures
            b == self.valid(),
    {
        self.name.as_str().unicode_len() <= MAX_NAME_CHARS
    }
}

/// `arrayvec::ArrayVec`, a vector of bounded length that keeps its items
/// in place. Nothing of its inside is known here.
#[verifier::external_type_specification]
#[verifier::external_body]
#[verifier::reject_recursive_types(T)]
pub struct ExArrayVec<T, const CAP: usize>(ArrayVec<T, CAP>);

/// The programs that a list holds, in the order of the list.
pub uninterp spec fn listed(list: ArrayVec<App, 16>) -> Seq<App>;

/// The number of programs in the list. This is `ArrayVec::len`, believed
/// here to count the items that the list holds.
#[verifier::external_body]
pub(crate) fn list_len(list: &ArrayVec<App, 16>) -> (n: usize)
    ensures
        n == listed(*list).len(),
{
    list.len()
}

/// The program in row `i` of the list. This is `ArrayVec::as_slice`,
/// believed here to show the items that the list holds, in their order.
#[verifier::external_body]
pub(crate) fn list_item(list: &ArrayVec<App, 16>, i: usize) -> (app: &App)
    requires
        i < listed(*list).len(),
    ensures
        *app == listed(*list)[i as int],
{
    &list.as_slice()[i]
}

/// The row of the first program of `apps` that is named `name`.
pub open spec fn app_index(apps: Seq<App>, name: Seq<char>) -> Option<int> {
    if exists|i: int| 0 <= i < apps.len() && (#[trigger] apps[i]).name@ == name {
        Some(first_app(apps, name, 0))
    } else {
        None
    }
}

/// The first row at or behind `from` whose program is named `name`.
pub open spec fn first_app(apps: Seq<App>, name: Seq<char>, from: int) -> int
    decreases apps.len() - from,
{
    if from >= apps.len() || apps[from].name@ == name {
        from
    } else {
        first_app(apps, name, from + 1)
    }
}

/// The row of the first program of the list that is named `name`.
pub fn find_app(list: &ArrayVec<App, 16>, name: &str) -> (r: Option<usize>)
    ensures
        match r {
            Some(i) => app_index(listed(*list), name@) == Some(i as int) && i < listed(*list).len()
                && listed(*list)[i as int].name@ == name@,
            None => app_index(listed(*list), name@) is None,
        },
{
    let ghost apps = listed(*list);
    let wanted = name.to_owned();
    let n = list_len(list);
    let mut i: usize = 0;
    while i < n
        invariant
            apps == listed(*list),
            n == apps.len(),
            i <= n,
            wanted@ == name@,
            forall|j: int| 0 <= j < i ==> (#[trigger] apps[j]).name@ != name@,
            first_app(apps, name@, 0) == first_app(apps, name@, i as int),
        decreases n - i,
    {
        if list_item(list, i).name == wanted {
            proof {
                assert(apps[i as int].name@ == name@);
                assert(first_app(apps, name@, i as int) == i);
            }
            return Some(i);
        }
        i += 1;
    }
    proof {
        if app_index(apps, name@) is Some {
            let j = choose|j: int| 0 <= j < apps.len() && (#[trigger] apps[j]).name@ == name@;
            assert(false);
        }
    }
    None
}

} // verus!
