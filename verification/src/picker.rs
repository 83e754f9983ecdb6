//! Selection state of the graphic picker window, and the path-stem rule its
//! icon list is built with.  Loading and showing the images themselves is
//! shell work; the verified part owns the names and the selection.

use vstd::prelude::*;
use vstd::string::StrSliceExecFns;

verus! {

/// The characters of `name` before its first `.` — the icon's name without
/// the file extension.
pub fn icon_stem(name: &String) -> (r: String)
    ensures
        r@.len() <= name@.len(),
        r@ == name@.subrange(0, r@.len() as int),
        forall|j: int| 0 <= j < r@.len() ==> name@[j] != '.',
        r@.len() < name@.len() ==> name@[r@.len() as int] == '.',
{
    let n = name.as_str().unicode_len();
    let mut i: usize = 0;
    while i < n
        invariant
            0 <= i <= n,
            n == name@.len(),
            forall|j: int| 0 <= j < i ==> name@[j] != '.',
        decreases n - i,
    {
        if name.as_str().get_char(i) == '.' {
            let stem = name.as_str().substring_char(0, i);
            return stem.to_owned();
        }
        i += 1;
    }
    let whole = name.as_str().substring_char(0, n);
    proof {
        assert(whole@ =~= name@.subrange(0, name@.len() as int));
    }
    whole.to_owned()
}

/// The picker: a list of icon names and which one is active.
#[derive(Debug)]
pub struct GraphicPicker {
    /// The selectable icon names, in display order.
    pub icons: Vec<String>,
    /// The position of the active icon.
    pub selected_icon: usize,
}

impl GraphicPicker {
    /// The selection points at an icon, or at the front of an empty list.
    pub open spec fn wf(self) -> bool {
        if self.icons@.len() == 0 {
            self.selected_icon == 0
        } else {
            self.selected_icon < self.icons@.len()
        }
    }

    /// A picker over `icons` with the first icon active.
    pub fn new(icons: Vec<String>) -> (r: GraphicPicker)
        ensures
            r.wf(),
            r.icons == icons,
            r.selected_icon == 0,
    {
        GraphicPicker { icons, selected_icon: 0 }
    }

    /// Makes the icon at `active_icon_index` the active one; an out-of-range
    /// position is ignored.
    pub fn set_active_icon(&mut self, active_icon_index: usize)
        requires
            old(self).wf(),
        ensures
            final(self).wf(),
            final(self).icons == old(self).icons,
            active_icon_index < old(self).icons@.len() ==> final(self).selected_icon
                == active_icon_index,
            active_icon_index >= old(self).icons@.len() ==> final(self).selected_icon == old(
                self,
            ).selected_icon,
    {
        if active_icon_index < self.icons.len() {
            self.selected_icon = active_icon_index;
        }
    }

    /// The name of the active icon, when the list is not empty.
    pub fn selected_name(&self) -> (r: Option<&String>)
        requires
            self.wf(),
        ensures
            self.icons@.len() == 0 ==> r is None,
            self.icons@.len() > 0 ==> (r matches Some(x)
                && x@ == self.icons@[self.selected_icon as int]@),
    {
        if self.icons.len() == 0 {
            None
        } else {
            Some(&self.icons[self.selected_icon])
        }
    }
}

} // verus!
