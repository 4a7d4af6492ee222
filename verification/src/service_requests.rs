//! The request that carries an action to the running service, chosen from
//! the model's records: the route to post to and the fields of the form
//! sent with it, in order. Sending it (encoding the form, dispatching the
//! request) is left to the caller.

use crate::model::{clamp_index, clamped, Action, FuzzerBpBallotForm, Model, State};
use chrono::NaiveDateTime;
use vstd::prelude::*;

verus! {

/// The value of a form field.
#[derive(Debug)]
pub enum FormValue {
    Text(String),
    Flag(bool),
    Number(i64),
    /// A date and time, sent to the minute.
    Minutes(NaiveDateTime),
}

/// A form value as mathematics.
pub enum FormValueView {
    Text(Seq<char>),
    Flag(bool),
    Number(i64),
    Minutes(NaiveDateTime),
}

impl View for FormValue {
    type V = FormValueView;

    open spec fn view(&self) -> FormValueView {
        match self {
            FormValue::Text(t) => FormValueView::Text(t@),
            FormValue::Flag(b) => FormValueView::Flag(*b),
            FormValue::Number(n) => FormValueView::Number(*n),
            FormValue::Minutes(t) => FormValueView::Minutes(*t),
        }
    }
}

/// A form field: its name and value.
pub struct FormField {
    pub name: String,
    pub value: FormValue,
}

/// A form field as mathematics.
pub struct FormFieldView {
    pub name: Seq<char>,
    pub value: FormValueView,
}

impl View for FormField {
    type V = FormFieldView;

    open spec fn view(&self) -> FormFieldView {
        FormFieldView { name: self.name@, value: self.value@ }
    }
}

/// A request to the service: a POST to `path`, with a form where the route
/// takes one.
pub struct ServiceRequest {
    pub path: String,
    pub form: Option<Vec<FormField>>,
}

/// A request as mathematics.
pub struct ServiceRequestView {
    pub path: Seq<char>,
    pub form: Option<Seq<FormFieldView>>,
}

impl View for ServiceRequest {
    type V = ServiceRequestView;

    open spec fn view(&self) -> ServiceRequestView {
        ServiceRequestView {
            path: self.path@,
            form: match &self.form {
                Some(f) => Some(f@.map_values(|x: FormField| x@)),
                None => None,
            },
        }
    }
}

/// A text field.
pub open spec fn text_field(name: Seq<char>, value: Seq<char>) -> FormFieldView {
    FormFieldView { name: name, value: FormValueView::Text(value) }
}

/// The field for an optional text: none when it is absent.
pub open spec fn optional_field(name: Seq<char>, value: Option<String>) -> Seq<FormFieldView> {
    match value {
        Some(v) => seq![text_field(name, v@)],
        None => Seq::empty(),
    }
}

/// The names of the fields of a ballot form, in order.
pub open spec fn ballot_field_name(k: int) -> Seq<char> {
    if k == 0 { "pm"@ }
    else if k == 1 { "dpm"@ }
    else if k == 2 { "lo"@ }
    else if k == 3 { "dlo"@ }
    else if k == 4 { "mg"@ }
    else if k == 5 { "gw"@ }
    else if k == 6 { "mo"@ }
    else { "ow"@ }
}

/// The names of the score fields of a ballot form, in order.
pub open spec fn score_field_name(k: int) -> Seq<char> {
    if k == 0 { "pm_score"@ }
    else if k == 1 { "dpm_score"@ }
    else if k == 2 { "lo_score"@ }
    else if k == 3 { "dlo_score"@ }
    else if k == 4 { "mg_score"@ }
    else if k == 5 { "gw_score"@ }
    else if k == 6 { "mo_score"@ }
    else { "ow_score"@ }
}

impl Model {
    /// Link `k` is the first ballot link of the member for the room.
    pub open spec fn is_first_link(self, room_id: i64, member_id: i64, k: int) -> bool {
        &&& 0 <= k < self.ballot_links.len()
        &&& self.ballot_links[k].room_id == room_id
        &&& self.ballot_links[k].member_id == member_id
        &&& forall|j: int|
            0 <= j < k ==> !((#[trigger] self.ballot_links[j]).room_id == room_id
                && self.ballot_links[j].member_id == member_id)
    }

    /// The fields of a ballot form: each speaker by the public id of the
    /// (clamped) speaker it names, followed by that speaker's score, and
    /// the flag that insists on the ballot.
    pub open spec fn ballot_fields(self, form: FuzzerBpBallotForm) -> Seq<FormFieldView> {
        Seq::new(
            17,
            |i: int|
                if i == 16 {
                    FormFieldView { name: "force"@, value: FormValueView::Flag(true) }
                } else if i % 2 == 0 {
                    text_field(
                        ballot_field_name(i / 2),
                        self.form_speaker_record(form, i / 2).public_id@,
                    )
                } else {
                    FormFieldView {
                        name: score_field_name(i / 2),
                        value: FormValueView::Number(crate::model::form_score(form, i / 2)),
                    }
                },
        )
    }

    /// The request can be formed without looking up what is not there:
    /// a ballot for an existing adjudicator and room needs speakers to name
    /// and the adjudicator's ballot link for the room.
    pub open spec fn request_formable(self, action: Action) -> bool {
        match action {
            Action::SubmitBallot(_, adj_idx, room_idx) => self.adjs.len() > 0 && self.rooms.len() > 0
                ==> self.speakers.len() > 0 && exists|k: int|
                self.is_first_link(
                    self.rooms[clamped(room_idx, self.rooms.len())].id,
                    self.adjs[clamped(adj_idx, self.adjs.len())].member_id,
                    k,
                ),
            _ => true,
        }
    }

    /// The request that carries `action` to the service, if any: the route
    /// and form that each action posts, with the records it names looked
    /// up (clamped) among the model's records.
    pub open spec fn request_for(self, action: Action) -> Option<ServiceRequestView> {
        match action {
            Action::Setup(user) => match user.username {
                Some(name) => Some(
                    ServiceRequestView {
                        path: "/admin/setup"@,
                        form: Some(
                            seq![
                                text_field("username"@, name@),
                                text_field("email"@, user.email@),
                                text_field("password"@, user.password_hash@),
                                text_field("password2"@, user.password_hash@),
                            ],
                        ),
                    },
                ),
                None => None,
            },
            Action::Login(i) => if self.users.len() > 0 {
                let u = self.users[clamped(i, self.users.len())];
                Some(
                    ServiceRequestView {
                        path: "/login"@,
                        form: Some(
                            seq![text_field("email"@, u.email@), text_field("password"@, u.password_hash@)],
                        ),
                    },
                )
            } else {
                None
            },
            Action::CreateGroup(group) => Some(
                ServiceRequestView {
                    path: "/groups/new"@,
                    form: Some(seq![text_field("name"@, group.name@)] + optional_field("website"@, group.website)),
                },
            ),
            Action::CreateSparSeries(series) => if self.groups.len() > 0 {
                let g = self.groups[clamped(series.group_id as usize, self.groups.len())];
                Some(
                    ServiceRequestView {
                        path: "/groups/"@ + g.public_id@ + "/spar_series/new"@,
                        form: Some(
                            seq![text_field("title"@, series.title@)] + optional_field(
                                "description"@,
                                series.description,
                            ),
                        ),
                    },
                )
            } else {
                None
            },
            Action::CreateSpar(spar) => if self.spar_series.len() > 0 {
                let s = self.spar_series[clamped(spar.spar_series_id as usize, self.spar_series.len())];
                Some(
                    ServiceRequestView {
                        path: "/spar_series/"@ + s.public_id@ + "/makesess"@,
                        form: Some(
                            seq![
                                FormFieldView {
                                    name: "start_time"@,
                                    value: FormValueView::Minutes(spar.start_time),
                                },
                            ] + if spar.is_open {
                                seq![text_field("is_open"@, "true"@)]
                            } else {
                                Seq::empty()
                            },
                        ),
                    },
                )
            } else {
                None
            },
            Action::ReleaseDraw(i) => if self.spars.len() > 0 {
                let s = self.spars[clamped(i, self.spars.len())];
                Some(
                    ServiceRequestView {
                        path: "/spars/"@ + s.public_id@ + "/set_released?released=true"@,
                        form: None,
                    },
                )
            } else {
                None
            },
            Action::Signup { member_idx, spar_idx, as_judge, as_speaker } => {
                let si = clamped(spar_idx, self.spar_signups.len());
                let mi = clamped(member_idx, self.spar_series_members.len());
                if si < self.spars.len() && mi < self.spar_series_members.len() {
                    Some(
                        ServiceRequestView {
                            path: "/spars/"@ + self.spars[si].public_id@ + "/signup/"@
                                + self.spar_series_members[mi].public_id@,
                            form: Some(
                                seq![
                                    FormFieldView { name: "as_judge"@, value: FormValueView::Flag(as_judge) },
                                    FormFieldView {
                                        name: "as_speaker"@,
                                        value: FormValueView::Flag(as_speaker),
                                    },
                                ],
                            ),
                        },
                    )
                } else {
                    None
                }
            },
            Action::GenerateDraw(i) => if self.spars.len() > 0 {
                let s = self.spars[clamped(i, self.spars.len())];
                Some(ServiceRequestView { path: "/spars/"@ + s.public_id@ + "/makedraw"@, form: None })
            } else {
                None
            },
            Action::SubmitBallot(form, adj_idx, room_idx) => if self.adjs.len() > 0
                && self.rooms.len() > 0 {
                let room = self.rooms[clamped(room_idx, self.rooms.len())];
                let adj = self.adjs[clamped(adj_idx, self.adjs.len())];
                let k = choose|k: int| self.is_first_link(room.id, adj.member_id, k);
                Some(
                    ServiceRequestView {
                        path: "/ballots/"@ + self.ballot_links[k].link@ + "/submit"@,
                        form: Some(self.ballot_fields(form)),
                    },
                )
            } else {
                None
            },
            Action::AddMember(member) => {
                let si = clamped(member.spar_series_id as usize, self.spar_series_members.len());
                if si < self.spar_series.len() {
                    Some(
                        ServiceRequestView {
                            path: "/spar_series/"@ + self.spar_series[si].public_id@ + "/add_member"@,
                            form: Some(
                                seq![text_field("name"@, member.name@), text_field("email"@, member.email@)],
                            ),
                        },
                    )
                } else {
                    None
                }
            },
            Action::SetSparIsOpen { spar, state } => if self.spars.len() > 0 {
                let s = self.spars[clamped(spar, self.spars.len())];
                Some(
                    ServiceRequestView {
                        path: "/spars/"@ + s.public_id@ + "/set_is_open?state="@ + if state {
                            "true"@
                        } else {
                            "false"@
                        },
                        form: None,
                    },
                )
            } else {
                None
            },
        }
    }
}


/// A text field.
fn text(name: &str, value: &String) -> (f: FormField)
    ensures
        f@ == text_field(name@, value@),
{
    FormField { name: String::from_str(name), value: FormValue::Text(value.clone()) }
}

/// A flag field.
fn flag(name: &str, value: bool) -> (f: FormField)
    ensures
        f@ == (FormFieldView { name: name@, value: FormValueView::Flag(value) }),
{
    FormField { name: String::from_str(name), value: FormValue::Flag(value) }
}

/// `a`, then `b`, then `c`.
fn joined(a: &str, b: &String, c: &str) -> (s: String)
    ensures
        s@ == a@ + b@ + c@,
{
    let mut s = String::from_str(a);
    s.append(b.as_str());
    s.append(c);
    s
}

/// The fields as mathematics.
pub open spec fn fields_view(f: Seq<FormField>) -> Seq<FormFieldView> {
    f.map_values(|x: FormField| x@)
}

/// Adds the field for an optional text, if it is present.
fn push_optional(fields: &mut Vec<FormField>, name: &str, value: &Option<String>)
    ensures
        fields_view(final(fields)@) == fields_view(old(fields)@) + optional_field(name@, *value),
{
    match value {
        Some(v) => {
            let ghost before = fields@;
            fields.push(text(name, v));
            assert(fields_view(fields@) =~= fields_view(before) + optional_field(name@, *value));
        },
        None => {
            assert(fields_view(fields@) =~= fields_view(fields@) + optional_field(name@, *value));
        },
    }
}

/// The name of the `k`th speaker field of a ballot form.
fn ballot_field(k: usize) -> (s: &'static str)
    ensures
        s@ == ballot_field_name(k as int),
{
    if k == 0 { "pm" }
    else if k == 1 { "dpm" }
    else if k == 2 { "lo" }
    else if k == 3 { "dlo" }
    else if k == 4 { "mg" }
    else if k == 5 { "gw" }
    else if k == 6 { "mo" }
    else { "ow" }
}

/// The name of the `k`th score field of a ballot form.
fn score_field(k: usize) -> (s: &'static str)
    ensures
        s@ == score_field_name(k as int),
{
    if k == 0 { "pm_score" }
    else if k == 1 { "dpm_score" }
    else if k == 2 { "lo_score" }
    else if k == 3 { "dlo_score" }
    else if k == 4 { "mg_score" }
    else if k == 5 { "gw_score" }
    else if k == 6 { "mo_score" }
    else { "ow_score" }
}

/// The speaker index of the `k`th entry of a ballot form.
fn speaker_index(form: &FuzzerBpBallotForm, k: usize) -> (r: usize)
    ensures
        r == crate::model::form_speaker(*form, k as int),
{
    if k == 0 { form.pm }
    else if k == 1 { form.dpm }
    else if k == 2 { form.lo }
    else if k == 3 { form.dlo }
    else if k == 4 { form.mg }
    else if k == 5 { form.gw }
    else if k == 6 { form.mo }
    else { form.ow }
}

/// The score of the `k`th entry of a ballot form.
fn speaker_score(form: &FuzzerBpBallotForm, k: usize) -> (r: i64)
    ensures
        r == crate::model::form_score(*form, k as int),
{
    if k == 0 { form.pm_score }
    else if k == 1 { form.dpm_score }
    else if k == 2 { form.lo_score }
    else if k == 3 { form.dlo_score }
    else if k == 4 { form.mg_score }
    else if k == 5 { form.gw_score }
    else if k == 6 { form.mo_score }
    else { form.ow_score }
}

impl State {
    /// The fields of a ballot form.
    fn ballot_form(&self, form: &FuzzerBpBallotForm) -> (f: Vec<FormField>)
        requires
            self@.speakers.len() > 0,
        ensures
            fields_view(f@) == self@.ballot_fields(*form),
    {
        let mut fields: Vec<FormField> = Vec::new();
        let n = self.speakers.len();
        let mut k: usize = 0;
        while k < 8
            invariant
                0 <= k <= 8,
                n == self@.speakers.len(),
                n > 0,
                fields@.len() == 2 * k,
                forall|i: int| 0 <= i < 2 * k ==> #[trigger] fields_view(fields@)[i] == self@.ballot_fields(*form)[i],
            decreases 8 - k,
        {
            let idx = clamp_index(speaker_index(form, k), n);
            let ghost before = fields@;
            fields.push(text(ballot_field(k), &self.speakers[idx].public_id));
            fields.push(
                FormField {
                    name: String::from_str(score_field(k)),
                    value: FormValue::Number(speaker_score(form, k)),
                },
            );
            proof {
                assert forall|i: int| 0 <= i < 2 * k + 2 implies #[trigger] fields_view(fields@)[i]
                    == self@.ballot_fields(*form)[i] by {
                    assert(fields_view(fields@)[i] == fields@[i]@);
                    if i < 2 * k {
                        assert(fields@[i] == before[i]);
                        assert(fields_view(before)[i] == before[i]@);
                        assert(fields_view(before)[i] == self@.ballot_fields(*form)[i]);
                    } else if i == 2 * k {
                        assert(i / 2 == k);
                        assert(i % 2 == 0);
                        assert(self@.form_speaker_record(*form, k as int) == self@.speakers[idx as int]);
                    } else {
                        assert(i / 2 == k);
                        assert(i % 2 == 1);
                    }
                }
            }
            k = k + 1;
        }
        let ghost before = fields@;
        fields.push(flag("force", true));
        proof {
            assert forall|i: int| 0 <= i < 17 implies #[trigger] fields_view(fields@)[i]
                == self@.ballot_fields(*form)[i] by {
                assert(fields_view(fields@)[i] == fields@[i]@);
                if i < 16 {
                    assert(fields@[i] == before[i]);
                    assert(fields_view(before)[i] == before[i]@);
                    assert(fields_view(before)[i] == self@.ballot_fields(*form)[i]);
                }
            }
            assert(fields_view(fields@) =~= self@.ballot_fields(*form));
        }
        fields
    }

    /// The request that carries `action` to the service, if the action has
    /// one.
    pub fn request_for(&self, action: &Action) -> (r: Option<ServiceRequest>)
        requires
            self@.request_formable(*action),
        ensures
            match r {
                Some(q) => self@.request_for(*action) == Some(q@),
                None => self@.request_for(*action) is None,
            },
    {
        match action {
            Action::Setup(user) => match &user.username {
                Some(name) => {
                    let form = vec![
                        text("username", name),
                        text("email", &user.email),
                        text("password", &user.password_hash),
                        text("password2", &user.password_hash),
                    ];
                    let q = ServiceRequest { path: String::from_str("/admin/setup"), form: Some(form) };
                    assert(fields_view(form@) =~= seq![
                        text_field("username"@, name@),
                        text_field("email"@, user.email@),
                        text_field("password"@, user.password_hash@),
                        text_field("password2"@, user.password_hash@),
                    ]);
                    Some(q)
                },
                None => None,
            },
            Action::Login(i) => {
                if self.users.len() == 0 {
                    return None;
                }
                let u = &self.users[clamp_index(*i, self.users.len())];
                let form = vec![text("email", &u.email), text("password", &u.password_hash)];
                assert(fields_view(form@) =~= seq![
                    text_field("email"@, u.email@),
                    text_field("password"@, u.password_hash@),
                ]);
                Some(ServiceRequest { path: String::from_str("/login"), form: Some(form) })
            },
            Action::CreateGroup(group) => {
                let mut form = vec![text("name", &group.name)];
                assert(fields_view(form@) =~= seq![text_field("name"@, group.name@)]);
                push_optional(&mut form, "website", &group.website);
                Some(ServiceRequest { path: String::from_str("/groups/new"), form: Some(form) })
            },
            Action::CreateSparSeries(series) => {
                if self.groups.len() == 0 {
                    return None;
                }
                let g = &self.groups[clamp_index(series.group_id as usize, self.groups.len())];
                let mut form = vec![text("title", &series.title)];
                assert(fields_view(form@) =~= seq![text_field("title"@, series.title@)]);
                push_optional(&mut form, "description", &series.description);
                Some(
                    ServiceRequest {
                        path: joined("/groups/", &g.public_id, "/spar_series/new"),
                        form: Some(form),
                    },
                )
            },
            Action::CreateSpar(spar) => {
                if self.spar_series.len() == 0 {
                    return None;
                }
                let s = &self.spar_series[clamp_index(spar.spar_series_id as usize, self.spar_series.len())];
                let mut form = vec![
                    FormField {
                        name: String::from_str("start_time"),
                        value: FormValue::Minutes(spar.start_time.clone()),
                    },
                ];
                let ghost first = fields_view(form@);
                if spar.is_open {
                    form.push(text("is_open", &String::from_str("true")));
                }
                assert(fields_view(form@) =~= seq![
                    FormFieldView { name: "start_time"@, value: FormValueView::Minutes(spar.start_time) },
                ] + if spar.is_open {
                    seq![text_field("is_open"@, "true"@)]
                } else {
                    Seq::<FormFieldView>::empty()
                });
                Some(ServiceRequest { path: joined("/spar_series/", &s.public_id, "/makesess"), form: Some(form) })
            },
            Action::ReleaseDraw(i) => {
                if self.spars.len() == 0 {
                    return None;
                }
                let s = &self.spars[clamp_index(*i, self.spars.len())];
                Some(
                    ServiceRequest {
                        path: joined("/spars/", &s.public_id, "/set_released?released=true"),
                        form: None,
                    },
                )
            },
            Action::Signup { member_idx, spar_idx, as_judge, as_speaker } => {
                let si = clamp_index(*spar_idx, self.spar_signups.len());
                let mi = clamp_index(*member_idx, self.spar_series_members.len());
                if si >= self.spars.len() || mi >= self.spar_series_members.len() {
                    return None;
                }
                let mut path = joined("/spars/", &self.spars[si].public_id, "/signup/");
                path.append(self.spar_series_members[mi].public_id.as_str());
                let form = vec![flag("as_judge", *as_judge), flag("as_speaker", *as_speaker)];
                assert(fields_view(form@) =~= seq![
                    FormFieldView { name: "as_judge"@, value: FormValueView::Flag(*as_judge) },
                    FormFieldView { name: "as_speaker"@, value: FormValueView::Flag(*as_speaker) },
                ]);
                Some(ServiceRequest { path, form: Some(form) })
            },
            Action::GenerateDraw(i) => {
                if self.spars.len() == 0 {
                    return None;
                }
                let s = &self.spars[clamp_index(*i, self.spars.len())];
                Some(ServiceRequest { path: joined("/spars/", &s.public_id, "/makedraw"), form: None })
            },
            Action::SubmitBallot(form, adj_idx, room_idx) => {
                if self.adjs.len() == 0 || self.rooms.len() == 0 {
                    return None;
                }
                let room_id = self.rooms[clamp_index(*room_idx, self.rooms.len())].id;
                let member_id = self.adjs[clamp_index(*adj_idx, self.adjs.len())].member_id;
                let k = self.find_link(room_id, member_id);
                let fields = self.ballot_form(form);
                Some(
                    ServiceRequest {
                        path: joined("/ballots/", &self.ballot_links[k].link, "/submit"),
                        form: Some(fields),
                    },
                )
            },
            Action::AddMember(member) => {
                let si = clamp_index(member.spar_series_id as usize, self.spar_series_members.len());
                if si >= self.spar_series.len() {
                    return None;
                }
                let form = vec![text("name", &member.name), text("email", &member.email)];
                assert(fields_view(form@) =~= seq![
                    text_field("name"@, member.name@),
                    text_field("email"@, member.email@),
                ]);
                Some(
                    ServiceRequest {
                        path: joined("/spar_series/", &self.spar_series[si].public_id, "/add_member"),
                        form: Some(form),
                    },
                )
            },
            Action::SetSparIsOpen { spar, state } => {
                if self.spars.len() == 0 {
                    return None;
                }
                let s = &self.spars[clamp_index(*spar, self.spars.len())];
                let mut path = joined("/spars/", &s.public_id, "/set_is_open?state=");
                if *state {
                    path.append("true");
                } else {
                    path.append("false");
                }
                Some(ServiceRequest { path, form: None })
            },
        }
    }

    /// The first ballot link of the member for the room.
    fn find_link(&self, room_id: i64, member_id: i64) -> (k: usize)
        requires
            exists|k: int| self@.is_first_link(room_id, member_id, k),
        ensures
            self@.is_first_link(room_id, member_id, k as int),
            (choose|c: int| self@.is_first_link(room_id, member_id, c)) == k,
    {
        let mut k: usize = 0;
        while k < self.ballot_links.len()
            invariant
                0 <= k <= self.ballot_links.len(),
                exists|c: int| self@.is_first_link(room_id, member_id, c),
                forall|j: int|
                    0 <= j < k ==> !((#[trigger] self@.ballot_links[j]).room_id == room_id
                        && self@.ballot_links[j].member_id == member_id),
            decreases self.ballot_links.len() - k,
        {
            if self.ballot_links[k].room_id == room_id && self.ballot_links[k].member_id == member_id {
                proof {
                    assert(self@.is_first_link(room_id, member_id, k as int));
                    let c = choose|c: int| self@.is_first_link(room_id, member_id, c);
                    if c < k {
                        assert(!(self@.ballot_links[c].room_id == room_id && self@.ballot_links[c].member_id
                            == member_id));
                    }
                    if c > k {
                        assert(!(self@.ballot_links[k as int].room_id == room_id
                            && self@.ballot_links[k as int].member_id == member_id));
                    }
                }
                return k;
            }
            k = k + 1;
        }
        proof {
            let c = choose|c: int| self@.is_first_link(room_id, member_id, c);
            assert(!(self@.ballot_links[c].room_id == room_id && self@.ballot_links[c].member_id == member_id));
        }
        0
    }
}

} // verus!
