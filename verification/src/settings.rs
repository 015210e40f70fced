//! Game settings chosen by the host, and their normalisation.
use vstd::prelude::*;
use crate::keyed::texts;

verus! {

/// A subject the host added to the candidate pool by hand.
pub struct AddedSubject {
    pub id: i64,
    pub name: String,
    pub name_cn: String,
    /// The subject's `type` as the client sent it, as JSON text.
    pub type_json: Option<String>,
}

pub struct AddedSubjectModel {
    pub id: i64,
    pub name: Seq<char>,
    pub name_cn: Seq<char>,
    pub type_json: Option<Seq<char>>,
}

impl View for AddedSubject {
    type V = AddedSubjectModel;

    open spec fn view(&self) -> AddedSubjectModel {
        AddedSubjectModel {
            id: self.id,
            name: self.name@,
            name_cn: self.name_cn@,
            type_json: opt_text(self.type_json),
        }
    }
}

pub open spec fn opt_str(o: Option<&str>) -> Option<Seq<char>> {
    match o {
        Some(s) => Some(s@),
        None => None,
    }
}

pub open spec fn opt_text(o: Option<String>) -> Option<Seq<char>> {
    match o {
        Some(s) => Some(s@),
        None => None,
    }
}

pub struct GameSettings {
    pub start_year: Option<i32>,
    pub end_year: Option<i32>,
    pub meta_tags: Vec<String>,
    pub top_n_subjects: Option<i64>,
    pub common_tags: bool,
    pub subject_tag_num: usize,
    pub character_tag_num: usize,
    pub main_character_only: bool,
    pub character_num: usize,
    pub use_subject_per_year: bool,
    pub added_subjects: Vec<AddedSubject>,
    pub added_subject_ids: Vec<i64>,
    pub max_attempts: usize,
    pub sync_mode: bool,
    pub nonstop_mode: bool,
    pub global_pick: bool,
    pub tag_ban: bool,
    pub use_hints: Vec<i64>,
    pub use_image_hint: Option<i64>,
    pub time_limit: Option<i64>,
    pub subject_search: bool,
    pub use_index: bool,
    pub index_id: Option<String>,
    /// Settings fields this library does not interpret, as JSON object text.
    pub extra: String,
}

pub struct SettingsModel {
    pub start_year: Option<i32>,
    pub end_year: Option<i32>,
    pub meta_tags: Seq<Seq<char>>,
    pub top_n_subjects: Option<i64>,
    pub common_tags: bool,
    pub subject_tag_num: usize,
    pub character_tag_num: usize,
    pub main_character_only: bool,
    pub character_num: usize,
    pub use_subject_per_year: bool,
    pub added_subjects: Seq<AddedSubjectModel>,
    pub added_subject_ids: Seq<i64>,
    pub max_attempts: usize,
    pub sync_mode: bool,
    pub nonstop_mode: bool,
    pub global_pick: bool,
    pub tag_ban: bool,
    pub use_hints: Seq<i64>,
    pub use_image_hint: Option<i64>,
    pub time_limit: Option<i64>,
    pub subject_search: bool,
    pub use_index: bool,
    pub index_id: Option<Seq<char>>,
    pub extra: Seq<char>,
}

impl View for GameSettings {
    type V = SettingsModel;

    open spec fn view(&self) -> SettingsModel {
        SettingsModel {
            start_year: self.start_year,
            end_year: self.end_year,
            meta_tags: texts(self.meta_tags@),
            top_n_subjects: self.top_n_subjects,
            common_tags: self.common_tags,
            subject_tag_num: self.subject_tag_num,
            character_tag_num: self.character_tag_num,
            main_character_only: self.main_character_only,
            character_num: self.character_num,
            use_subject_per_year: self.use_subject_per_year,
            added_subjects: self.added_subjects@.map_values(|a: AddedSubject| a@),
            added_subject_ids: self.added_subject_ids@,
            max_attempts: self.max_attempts,
            sync_mode: self.sync_mode,
            nonstop_mode: self.nonstop_mode,
            global_pick: self.global_pick,
            tag_ban: self.tag_ban,
            use_hints: self.use_hints@,
            use_image_hint: self.use_image_hint,
            time_limit: self.time_limit,
            subject_search: self.subject_search,
            use_index: self.use_index,
            index_id: opt_text(self.index_id),
            extra: self.extra@,
        }
    }
}

/// Whether the settings turn synchronised rounds on (no settings: off).
pub open spec fn sync_on(s: Option<SettingsModel>) -> bool {
    s matches Some(x) && x.sync_mode
}

/// Whether the settings turn non-stop mode on (no settings: off).
pub open spec fn nonstop_on(s: Option<SettingsModel>) -> bool {
    s matches Some(x) && x.nonstop_mode
}

/// Whether the settings turn global picking on (no settings: off).
pub open spec fn global_pick_on(s: Option<SettingsModel>) -> bool {
    s matches Some(x) && x.global_pick
}

/// Whether the settings turn tag bans on (no settings: off).
pub open spec fn tag_ban_on(s: Option<SettingsModel>) -> bool {
    s matches Some(x) && x.tag_ban
}

/// The attempt limit of the settings, 10 without settings.
pub open spec fn max_attempts_of(s: Option<SettingsModel>) -> int {
    match s {
        Some(x) => x.max_attempts as int,
        None => 10,
    }
}

pub fn settings_sync(s: &Option<GameSettings>) -> (r: bool)
    ensures
        r == sync_on(opt_settings(*s)),
{
    match s {
        Some(x) => x.sync_mode,
        None => false,
    }
}

pub fn settings_nonstop(s: &Option<GameSettings>) -> (r: bool)
    ensures
        r == nonstop_on(opt_settings(*s)),
{
    match s {
        Some(x) => x.nonstop_mode,
        None => false,
    }
}

pub fn settings_global_pick(s: &Option<GameSettings>) -> (r: bool)
    ensures
        r == global_pick_on(opt_settings(*s)),
{
    match s {
        Some(x) => x.global_pick,
        None => false,
    }
}

pub fn settings_tag_ban(s: &Option<GameSettings>) -> (r: bool)
    ensures
        r == tag_ban_on(opt_settings(*s)),
{
    match s {
        Some(x) => x.tag_ban,
        None => false,
    }
}

pub fn settings_max_attempts(s: &Option<GameSettings>) -> (r: usize)
    ensures
        r == max_attempts_of(opt_settings(*s)),
{
    match s {
        Some(x) => x.max_attempts,
        None => 10,
    }
}

pub open spec fn opt_settings(s: Option<GameSettings>) -> Option<SettingsModel> {
    match s {
        Some(x) => Some(x@),
        None => None,
    }
}


/// The settings of a room that chose none.
pub open spec fn default_settings_model() -> SettingsModel {
    SettingsModel {
        start_year: None,
        end_year: None,
        meta_tags: Seq::empty(),
        top_n_subjects: None,
        common_tags: true,
        subject_tag_num: 6,
        character_tag_num: 6,
        main_character_only: true,
        character_num: 6,
        use_subject_per_year: false,
        added_subjects: Seq::empty(),
        added_subject_ids: Seq::empty(),
        max_attempts: 10,
        sync_mode: false,
        nonstop_mode: false,
        global_pick: false,
        tag_ban: false,
        use_hints: Seq::empty(),
        use_image_hint: None,
        time_limit: None,
        subject_search: false,
        use_index: false,
        index_id: None,
        extra: seq!['{', '}'],
    }
}

pub fn default_true() -> (r: bool)
    ensures
        r,
{
    true
}

pub fn default_common_tags() -> (r: bool)
    ensures
        r,
{
    true
}

pub fn default_subject_tag_num() -> (r: usize)
    ensures
        r == 6,
{
    6
}

pub fn default_character_tag_num() -> (r: usize)
    ensures
        r == 6,
{
    6
}

pub fn default_character_num() -> (r: usize)
    ensures
        r == 6,
{
    6
}

pub fn default_max_attempts() -> (r: usize)
    ensures
        r == 10,
{
    10
}

impl Default for GameSettings {
    fn default() -> (r: Self)
        ensures
            r@ == default_settings_model(),
    {
        let extra = "{}";
        proof { reveal_strlit("{}"); }
        assert(extra@ =~= seq!['{', '}']);
        let r = GameSettings {
            start_year: None,
            end_year: None,
            meta_tags: Vec::new(),
            top_n_subjects: None,
            common_tags: default_common_tags(),
            subject_tag_num: default_subject_tag_num(),
            character_tag_num: default_character_tag_num(),
            main_character_only: default_true(),
            character_num: default_character_num(),
            use_subject_per_year: false,
            added_subjects: Vec::new(),
            added_subject_ids: Vec::new(),
            max_attempts: default_max_attempts(),
            sync_mode: false,
            nonstop_mode: false,
            global_pick: false,
            tag_ban: false,
            use_hints: Vec::new(),
            use_image_hint: None,
            time_limit: None,
            subject_search: false,
            use_index: false,
            index_id: None,
            extra: extra.to_string(),
        };
        assert(r@.meta_tags =~= Seq::<Seq<char>>::empty());
        assert(r@.added_subjects =~= Seq::<AddedSubjectModel>::empty());
        assert(r@.added_subject_ids =~= Seq::<i64>::empty());
        assert(r@.use_hints =~= Seq::<i64>::empty());
        r
    }
}

} // verus!
