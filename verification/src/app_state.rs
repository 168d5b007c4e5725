//! The state of the running application: the loaded profiles, the profile
//! store, and what the terminal interface shows.

use vstd::prelude::*;
use crate::dao::Dao;
use crate::interfaces::SelectInterfaces;
use crate::profile::EqProfile;

verus! {

/// The state of the running application.
pub struct App {
    pub profiles: Vec<EqProfile>,
    pub dirty: bool,
    pub cur_buff: String,
    pub is_buff_dirty: bool,
    pub dao: Dao,
    pub current_interface: SelectInterfaces,
    pub selected_profile_idx: usize,
    pub selected_node_idx: usize,
    pub selected_band_idx: usize,
    pub selected_filter_idx: usize,
    pub message: Option<String>,
}

impl App {
    /// A fresh state over the profile directory `dir`: nothing loaded,
    /// nothing selected, the first screen shown.
    pub fn new(dir: String) -> (r: Self)
        ensures
            r.profiles@.len() == 0,
            !r.dirty,
            r.cur_buff@ == Seq::<char>::empty(),
            !r.is_buff_dirty,
            r.dao.ip_dir@ == dir@,
            r.dao.all_confs@.len() == 0,
            r.current_interface == SelectInterfaces::AddProfile,
            r.selected_profile_idx == 0,
            r.selected_node_idx == 0,
            r.selected_band_idx == 0,
            r.selected_filter_idx == 0,
            r.message is None,
    {
        App {
            profiles: Vec::new(),
            dirty: false,
            cur_buff: String::new(),
            is_buff_dirty: false,
            dao: Dao::new(dir),
            current_interface: SelectInterfaces::default(),
            selected_profile_idx: 0,
            selected_node_idx: 0,
            selected_band_idx: 0,
            selected_filter_idx: 0,
            message: None,
        }
    }

    /// Whether a loaded profile has the name `name`.
    pub fn is_loaded(&self, name: &str) -> (r: bool)
        ensures
            r == exists|i: int| 0 <= i < self.profiles@.len() && #[trigger] self.profiles@[i].name@ == name@,
    {
        let wanted = name.to_owned();
        let mut i: usize = 0;
        while i < self.profiles.len()
            invariant
                i <= self.profiles@.len(),
                wanted@ == name@,
                forall|j: int| 0 <= j < i ==> #[trigger] self.profiles@[j].name@ != name@,
            decreases self.profiles@.len() - i,
        {
            if self.profiles[i].name == wanted {
                return true;
            }
            i = i + 1;
        }
        false
    }
}

} // verus!
