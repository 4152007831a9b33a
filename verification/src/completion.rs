//! Completion of paths and skills while typing.
use crate::input;
use crate::ordered;
use crate::text;
use vstd::prelude::*;

verus! {

/// The most items that a menu offers.
pub const MAX_COMPLETION_ITEMS: usize = 8;

/// The most directory entries that a search for paths looks at.
pub const MAX_WORKSPACE_SCAN_ENTRIES: usize = 2000;

#[derive(Debug, Clone, Copy, PartialEq, Eq, Structural)]
pub enum CompletionKind {
    Path,
    Skill,
}

/// Something that a menu offers.
#[derive(Debug, PartialEq, Eq)]
pub struct CompletionItem {
    kind: CompletionKind,
    value: String,
    detail: Option<String>,
}

/// Something that a menu offers.
pub struct ItemView {
    pub kind: CompletionKind,
    pub value: Seq<char>,
    pub detail: Option<Seq<char>>,
}

impl View for CompletionItem {
    type V = ItemView;

    closed spec fn view(&self) -> ItemView {
        ItemView {
            kind: self.kind,
            value: self.value@,
            detail: match self.detail {
                Some(d) => Some(d@),
                None => None,
            },
        }
    }
}

pub open spec fn item_views(v: Seq<CompletionItem>) -> Seq<ItemView> {
    v.map_values(|i: CompletionItem| i@)
}

pub open spec fn path_item(value: Seq<char>) -> ItemView {
    ItemView { kind: CompletionKind::Path, value, detail: None }
}

pub open spec fn skill_item(value: Seq<char>, detail: Seq<char>) -> ItemView {
    ItemView { kind: CompletionKind::Skill, value, detail: Some(detail) }
}

impl CompletionItem {
    pub fn path(value: String) -> (r: CompletionItem)
        ensures
            r@ == path_item(value@),
    {
        CompletionItem { kind: CompletionKind::Path, value, detail: None }
    }

    pub fn skill(value: String, detail: String) -> (r: CompletionItem)
        ensures
            r@ == skill_item(value@, detail@),
    {
        CompletionItem { kind: CompletionKind::Skill, value, detail: Some(detail) }
    }

    pub fn kind(&self) -> (r: CompletionKind)
        ensures
            r == self@.kind,
    {
        self.kind
    }

    pub fn value(&self) -> (r: &str)
        ensures
            r@ == self@.value,
    {
        self.value.as_str()
    }

    pub fn detail(&self) -> (r: Option<&str>)
        ensures
            match r {
                Some(d) => self@.detail == Some(d@),
                None => self@.detail is None,
            },
    {
        match &self.detail {
            Some(d) => Some(d.as_str()),
            None => None,
        }
    }
}

impl Clone for CompletionItem {
    fn clone(&self) -> (r: Self)
        ensures
            r@ == self@,
    {
        CompletionItem {
            kind: self.kind,
            value: self.value.clone(),
            detail: match &self.detail {
                Some(d) => Some(d.clone()),
                None => None,
            },
        }
    }
}

/// A menu of completions for a token of the input, which lies between two byte offsets.
#[derive(Debug, PartialEq, Eq)]
pub struct CompletionMenu {
    trigger: char,
    token_start: usize,
    token_end: usize,
    query: String,
    items: Vec<CompletionItem>,
    selected: usize,
}

/// A menu of completions.
pub struct MenuView {
    pub trigger: char,
    pub token_start: int,
    pub token_end: int,
    pub query: Seq<char>,
    pub items: Seq<ItemView>,
    pub selected: int,
}

impl MenuView {
    /// A menu offers something, and one of the items is selected.
    pub open spec fn well_formed(self) -> bool {
        0 <= self.selected < self.items.len()
    }
}

impl View for CompletionMenu {
    type V = MenuView;

    closed spec fn view(&self) -> MenuView {
        MenuView {
            trigger: self.trigger,
            token_start: self.token_start as int,
            token_end: self.token_end as int,
            query: self.query@,
            items: item_views(self.items@),
            selected: self.selected as int,
        }
    }
}

impl Clone for CompletionMenu {
    fn clone(&self) -> (r: Self)
        ensures
            r@ == self@,
    {
        let mut items: Vec<CompletionItem> = Vec::new();
        let mut i: usize = 0;
        while i < self.items.len()
            invariant
                i <= self.items@.len(),
                items@.len() == i,
                forall|k: int| 0 <= k < i ==> (#[trigger] items@[k])@ == self.items@[k]@,
            decreases self.items@.len() - i,
        {
            items.push(self.items[i].clone());
            i += 1;
        }
        proof {
            assert(item_views(items@) =~= item_views(self.items@));
        }
        CompletionMenu {
            trigger: self.trigger,
            token_start: self.token_start,
            token_end: self.token_end,
            query: self.query.clone(),
            items,
            selected: self.selected,
        }
    }
}

/// The menu with the next item selected, the first behind the last.
pub open spec fn next_selected(m: MenuView) -> MenuView {
    MenuView {
        selected: if m.selected + 1 < m.items.len() {
            m.selected + 1
        } else {
            0
        },
        ..m
    }
}

/// The menu with the previous item selected, the last before the first.
pub open spec fn previous_selected(m: MenuView) -> MenuView {
    MenuView {
        selected: if m.selected > 0 {
            m.selected - 1
        } else {
            m.items.len() - 1
        },
        ..m
    }
}

/// Stepping forth and back, or back and forth, leads back to the same item.
pub proof fn steps_through_a_menu_cancel_out(m: MenuView)
    requires
        m.well_formed(),
    ensures
        previous_selected(next_selected(m)) == m,
        next_selected(previous_selected(m)) == m,
{
}

/// What an item is replaced by: its value behind its sigil, with a blank behind it.
pub open spec fn replacement(item: ItemView) -> Seq<char> {
    match item.kind {
        CompletionKind::Path => "@"@ + item.value + " "@,
        CompletionKind::Skill => "$"@ + item.value + " "@,
    }
}

impl CompletionMenu {
    pub fn items(&self) -> (r: &Vec<CompletionItem>)
        ensures
            item_views(r@) == self@.items,
    {
        &self.items
    }

    pub fn selected_index(&self) -> (r: usize)
        ensures
            r == self@.selected,
    {
        self.selected
    }

    pub fn selected_item(&self) -> (r: Option<&CompletionItem>)
        ensures
            match r {
                Some(i) => 0 <= self@.selected < self@.items.len() && i@
                    == self@.items[self@.selected],
                None => self@.selected >= self@.items.len(),
            },
    {
        proof {
            assert(item_views(self.items@).len() == self.items@.len());
        }
        if self.selected < self.items.len() {
            proof {
                assert(item_views(self.items@)[self.selected as int]
                    == self.items@[self.selected as int]@);
            }
            Some(&self.items[self.selected])
        } else {
            None
        }
    }

    pub fn select_next(&mut self)
        requires
            old(self)@.well_formed(),
        ensures
            final(self)@ == next_selected(old(self)@),
            final(self)@.well_formed(),
    {
        proof {
            assert(item_views(self.items@).len() == self.items@.len());
        }
        if self.selected < self.items.len() - 1 {
            self.selected = self.selected + 1;
        } else {
            self.selected = 0;
        }
    }

    pub fn select_previous(&mut self)
        requires
            old(self)@.well_formed(),
        ensures
            final(self)@ == previous_selected(old(self)@),
            final(self)@.well_formed(),
    {
        proof {
            assert(item_views(self.items@).len() == self.items@.len());
        }
        if self.selected > 0 {
            self.selected = self.selected - 1;
        } else {
            self.selected = self.items.len() - 1;
        }
    }

    /// The byte offsets of the token that the completion replaces.
    pub fn replacement_range(&self) -> (r: (usize, usize))
        ensures
            r.0 == self@.token_start,
            r.1 == self@.token_end,
    {
        (self.token_start, self.token_end)
    }

    pub fn replacement_text(&self) -> (r: Option<String>)
        ensures
            match r {
                Some(t) => 0 <= self@.selected < self@.items.len() && t@ == replacement(
                    self@.items[self@.selected],
                ),
                None => self@.selected >= self@.items.len(),
            },
    {
        match self.selected_item() {
            None => None,
            Some(item) => Some(
                match item.kind() {
                    CompletionKind::Path => text::cat3("@", item.value(), " "),
                    CompletionKind::Skill => text::cat3("$", item.value(), " "),
                },
            ),
        }
    }

    /// Whether the menu completes a slash command.
    pub fn is_slash(&self) -> (r: bool)
        ensures
            r == (self@.trigger == '/'),
    {
        self.trigger == '/'
    }

    /// Whether the menu was made for this token.
    pub fn matches(&self, token_start: usize, token_end: usize, query: &str) -> (r: bool)
        ensures
            r == (self@.token_start == token_start && self@.token_end == token_end && self@.query
                == query@),
    {
        self.token_start == token_start && self.token_end == token_end && text::same(
            self.query.as_str(),
            query,
        )
    }
}

/// The token before the cursor, as byte offsets, with its sigil and what follows it.
#[derive(Debug, PartialEq, Eq)]
pub struct CompletionToken {
    pub trigger: char,
    pub start: usize,
    pub end: usize,
    pub query: String,
}

pub open spec fn is_sigil(c: char) -> bool {
    c == '@' || c == '$'
}

/// The characters of the word that ends at character position `i`.
pub open spec fn word_before(s: Seq<char>, i: int) -> Seq<char> {
    s.subrange(input::without_last_word(s.take(i)).len() as int, i)
}

/// Whether the word that ends at byte offset `cursor` can be completed: a sigil and no
/// other sigil behind it.
pub open spec fn completable(s: Seq<char>, cursor: int) -> bool {
    let i = text::index_at_byte(s, cursor) as int;
    let word = word_before(s, i);
    &&& text::is_boundary(s, cursor)
    &&& word.len() > 0
    &&& is_sigil(word[0])
    &&& forall|k: int| 0 < k < word.len() ==> !is_sigil(#[trigger] word[k])
}

/// The token at a cursor.
pub open spec fn is_token(t: CompletionToken, s: Seq<char>, cursor: int) -> bool {
    let i = text::index_at_byte(s, cursor) as int;
    let word = word_before(s, i);
    &&& t.trigger == word[0]
    &&& t.start == text::byte_len(s.take(i - word.len()))
    &&& t.end == cursor
    &&& t.query@ == word.drop_first()
}

proof fn lemma_without_last_word(s: Seq<char>, n: int)
    requires
        0 <= n <= s.len(),
        forall|k: int| n <= k < s.len() ==> !text::is_space(#[trigger] s[k]),
        n == 0 || text::is_space(s[n - 1]),
    ensures
        input::without_last_word(s) == s.take(n),
    decreases s.len(),
{
    if n == s.len() {
        assert(s.take(n) =~= s);
    } else {
        assert(!text::is_space(s[s.len() - 1]));
        let init = s.drop_last();
        assert forall|k: int| n <= k < init.len() implies !text::is_space(#[trigger] init[k]) by {
            assert(init[k] == s[k]);
        }
        lemma_without_last_word(init, n);
        assert(init.take(n) =~= s.take(n));
    }
}

/// The token that ends at byte offset `cursor`.
pub fn active_completion_token(s: &str, cursor: usize) -> (r: Option<CompletionToken>)
    ensures
        r is Some <==> completable(s@, cursor as int),
        r matches Some(t) ==> is_token(t, s@, cursor as int),
{
    let v = text::chars_of(s);
    let i: usize = match text::char_index(&v, cursor) {
        None => {
            return None;
        },
        Some(i) => i,
    };
    proof {
        text::lemma_index_at_byte_range(s@, cursor as int);
    }
    let mut start: usize = i;
    while start > 0 && !text::is_whitespace(v[start - 1])
        invariant
            start <= i <= v@.len(),
            forall|k: int| start <= k < i ==> !text::is_space(#[trigger] v@[k]),
        decreases start,
    {
        start -= 1;
    }
    let ghost word = word_before(s@, i as int);
    proof {
        let prefix = v@.take(i as int);
        assert forall|k: int| start <= k < prefix.len() implies !text::is_space(
            #[trigger] prefix[k],
        ) by {
            assert(prefix[k] == v@[k]);
        }
        if start > 0 {
            assert(prefix[start - 1] == v@[start - 1]);
        }
        lemma_without_last_word(prefix, start as int);
        assert(word =~= v@.subrange(start as int, i as int));
    }
    if start == i {
        return None;
    }
    let trigger: char = v[start];
    if trigger != '@' && trigger != '$' {
        return None;
    }
    let mut k: usize = start + 1;
    while k < i
        invariant
            start < k <= i <= v@.len(),
            word == v@.subrange(start as int, i as int),
            i == text::index_at_byte(s@, cursor as int),
            word == word_before(s@, i as int),
            forall|m: int| 0 < m < k - start ==> !is_sigil(#[trigger] word[m]),
        decreases i - k,
    {
        if v[k] == '@' || v[k] == '$' {
            proof {
                assert(is_sigil(word[k - start]));
            }
            return None;
        }
        k += 1;
    }
    let head = text::text_of(&v, 0, start);
    let query = text::text_of(&v, start + 1, i);
    proof {
        assert(head@ =~= s@.take(start as int));
        assert(query@ =~= word.drop_first());
    }
    Some(
        CompletionToken {
            trigger,
            start: text::len_in_bytes(head.as_str()),
            end: cursor,
            query,
        },
    )
}

/// A skill that can be completed.
#[derive(Debug, PartialEq, Eq)]
pub struct SkillCompletion {
    pub name: String,
    pub description: String,
}

/// What completions are drawn from.
#[derive(Debug, PartialEq, Eq)]
pub struct CompletionSources {
    skills: Vec<SkillCompletion>,
}

pub open spec fn skill_views(v: Seq<SkillCompletion>) -> Seq<(Seq<char>, Seq<char>)> {
    v.map_values(|s: SkillCompletion| (s.name@, s.description@))
}

/// Skills with one more put in behind those whose name does not come after its own.
pub open spec fn with_skill(
    s: Seq<(Seq<char>, Seq<char>)>,
    x: (Seq<char>, Seq<char>),
) -> Seq<(Seq<char>, Seq<char>)>
    decreases s.len(),
{
    if s.len() > 0 && ordered::lex_less(x.0, s.last().0) {
        with_skill(s.drop_last(), x).push(s.last())
    } else {
        s.push(x)
    }
}

/// Skills by name; of one name, in the given order.
pub open spec fn skills_by_name(s: Seq<(Seq<char>, Seq<char>)>) -> Seq<(Seq<char>, Seq<char>)>
    decreases s.len(),
{
    if s.len() == 0 {
        s
    } else {
        with_skill(skills_by_name(s.drop_last()), s.last())
    }
}

proof fn lemma_with_skill(s: Seq<(Seq<char>, Seq<char>)>, p: int, x: (Seq<char>, Seq<char>))
    requires
        0 <= p <= s.len(),
        forall|k: int| p <= k < s.len() ==> ordered::lex_less(x.0, (#[trigger] s[k]).0),
        p > 0 ==> !ordered::lex_less(x.0, s[p - 1].0),
    ensures
        with_skill(s, x) == s.insert(p, x),
    decreases s.len(),
{
    if p == s.len() {
        assert(s.insert(p, x) =~= s.push(x));
    } else {
        assert(ordered::lex_less(x.0, s[s.len() - 1].0));
        lemma_with_skill(s.drop_last(), p, x);
        assert(s.drop_last().insert(p, x).push(s.last()) =~= s.insert(p, x));
    }
}

/// The items of the first `n` skills whose name begins with `query`.
pub open spec fn skill_matches(
    s: Seq<(Seq<char>, Seq<char>)>,
    query: Seq<char>,
) -> Seq<ItemView>
    decreases s.len(),
{
    if s.len() == 0 {
        Seq::empty()
    } else if query.is_prefix_of(s.last().0) {
        skill_matches(s.drop_last(), query).push(skill_item(s.last().0, s.last().1))
    } else {
        skill_matches(s.drop_last(), query)
    }
}

/// The first items of a list, as many as a menu offers.
pub open spec fn offered(items: Seq<ItemView>) -> Seq<ItemView> {
    if items.len() <= MAX_COMPLETION_ITEMS {
        items
    } else {
        items.take(MAX_COMPLETION_ITEMS as int)
    }
}

/// What is to be done for an input.
#[derive(Debug, PartialEq, Eq)]
pub enum MenuStep {
    /// Show this menu, or none.
    Show(Option<CompletionMenu>),
    /// Search the workspace for paths that match the token.
    FindPaths(CompletionToken),
}

/// A fresh menu for a token; there is none without items.
pub open spec fn is_fresh_menu(
    r: Option<CompletionMenu>,
    token: CompletionToken,
    items: Seq<ItemView>,
) -> bool {
    match r {
        None => items.len() == 0,
        Some(m) => items.len() > 0 && m@ == (MenuView {
            trigger: token.trigger,
            token_start: token.start as int,
            token_end: token.end as int,
            query: token.query@,
            items,
            selected: 0,
        }),
    }
}

fn fresh_menu(token: CompletionToken, items: Vec<CompletionItem>) -> (r: Option<CompletionMenu>)
    ensures
        is_fresh_menu(r, token, item_views(items@)),
        r matches Some(m) ==> m@.well_formed(),
{
    proof {
        assert(item_views(items@).len() == items@.len());
    }
    if items.len() == 0 {
        return None;
    }
    Some(
        CompletionMenu {
            trigger: token.trigger,
            token_start: token.start,
            token_end: token.end,
            query: token.query,
            items,
            selected: 0,
        },
    )
}

impl CompletionSources {
    pub closed spec fn skills(self) -> Seq<(Seq<char>, Seq<char>)> {
        skill_views(self.skills@)
    }

    /// Sources with the given skills, by name.
    pub fn new(skills: Vec<SkillCompletion>) -> (r: CompletionSources)
        ensures
            r.skills() == skills_by_name(skill_views(skills@)),
    {
        let mut sorted: Vec<SkillCompletion> = Vec::new();
        let ghost all = skills@;
        proof {
            assert(skill_views(sorted@) =~= skills_by_name(skill_views(all).take(0)));
        }
        for skill in iter: skills
            invariant
                iter.seq() == all,
                skill_views(sorted@) == skills_by_name(skill_views(all).take(iter.index() as int)),
        {
            let ghost n = iter.index() as int;
            let ghost done = skill_views(all).take(n);
            let ghost before = sorted@;
            let mut p: usize = sorted.len();
            while p > 0 && ordered::text_less(skill.name.as_str(), sorted[p - 1].name.as_str())
                invariant
                    p <= sorted@.len(),
                    sorted@ == before,
                    forall|k: int|
                        p <= k < skill_views(before).len() ==> ordered::lex_less(
                            skill.name@,
                            (#[trigger] skill_views(before)[k]).0,
                        ),
                decreases p,
            {
                p -= 1;
            }
            proof {
                lemma_with_skill(
                    skill_views(before),
                    p as int,
                    (skill.name@, skill.description@),
                );
                assert(skill_views(all).take(n + 1).drop_last() =~= done);
                assert(skill_views(all).take(n + 1).last() == (skill.name@, skill.description@));
            }
            let ghost x = (skill.name@, skill.description@);
            sorted.insert(p, skill);
            proof {
                assert(skill_views(sorted@) =~= skill_views(before).insert(p as int, x));
            }
        }
        proof {
            assert(skill_views(all).take(all.len() as int) =~= skill_views(all));
        }
        CompletionSources { skills: sorted }
    }

    /// Sources with skills of the given names.
    pub fn from_skill_names(names: &Vec<String>) -> (r: CompletionSources)
        ensures
            r.skills() == skills_by_name(
                text::views(names@).map_values(|n: Seq<char>| (n, Seq::<char>::empty())),
            ),
    {
        let mut skills: Vec<SkillCompletion> = Vec::new();
        let mut i: usize = 0;
        while i < names.len()
            invariant
                i <= names@.len(),
                skills@.len() == i,
                forall|k: int|
                    0 <= k < i ==> (#[trigger] skills@[k]).name@ == names@[k]@
                        && skills@[k].description@ == Seq::<char>::empty(),
            decreases names@.len() - i,
        {
            skills.push(
                SkillCompletion { name: names[i].clone(), description: String::new() },
            );
            i += 1;
        }
        proof {
            assert(skill_views(skills@) =~= text::views(names@).map_values(
                |n: Seq<char>| (n, Seq::<char>::empty()),
            ));
        }
        CompletionSources::new(skills)
    }

    /// The skills whose name begins with `query`.
    pub fn skill_items(&self, query: &str) -> (r: Vec<CompletionItem>)
        ensures
            item_views(r@) == offered(skill_matches(self.skills(), query@)),
    {
        let mut r: Vec<CompletionItem> = Vec::new();
        let ghost all = self.skills();
        let mut i: usize = 0;
        proof {
            assert(all.take(0) =~= Seq::<(Seq<char>, Seq<char>)>::empty());
            assert(item_views(r@) =~= skill_matches(all.take(0), query@));
        }
        while i < self.skills.len()
            invariant
                i <= self.skills@.len(),
                all == self.skills(),
                item_views(r@) == offered(skill_matches(all.take(i as int), query@)),
                r@.len() <= MAX_COMPLETION_ITEMS,
            decreases self.skills@.len() - i,
        {
            let ghost before = r@;
            let ghost found = skill_matches(all.take(i as int), query@);
            proof {
                assert(all.take(i + 1).drop_last() =~= all.take(i as int));
                assert(all.take(i + 1).last() == (
                    self.skills@[i as int].name@,
                    self.skills@[i as int].description@,
                ));
                assert(item_views(before).len() == before.len());
            }
            if text::begins_with(self.skills[i].name.as_str(), query) {
                if r.len() < MAX_COMPLETION_ITEMS {
                    let item = CompletionItem::skill(
                        self.skills[i].name.clone(),
                        self.skills[i].description.clone(),
                    );
                    r.push(item);
                    proof {
                        assert(item_views(r@) =~= item_views(before).push(item@));
                        assert(item_views(r@) =~= offered(found.push(item@)));
                    }
                } else {
                    proof {
                        let item = skill_item(
                            self.skills@[i as int].name@,
                            self.skills@[i as int].description@,
                        );
                        assert(item_views(r@) =~= offered(found.push(item)));
                    }
                }
            }
            i += 1;
        }
        proof {
            assert(all.take(i as int) =~= all);
        }
        r
    }

    /// The menu for an input with the cursor at a byte offset. A menu that was made for
    /// the same token stays as it is, its selection with it.
    pub fn menu_for_input(
        &self,
        s: &str,
        cursor: usize,
        previous: Option<&CompletionMenu>,
    ) -> (r: MenuStep)
        ensures
            !completable(s@, cursor as int) ==> r == MenuStep::Show(None),
            completable(s@, cursor as int) ==> exists|token: CompletionToken|
                {
                    &&& #[trigger] is_token(token, s@, cursor as int)
                    &&& if previous matches Some(p) && p@.trigger == token.trigger
                        && p@.token_start == token.start && p@.token_end == token.end
                        && p@.query == token.query@ {
                        r matches MenuStep::Show(Some(m)) && m@ == previous->0@
                    } else if token.trigger == '$' {
                        r matches MenuStep::Show(m) && is_fresh_menu(
                            m,
                            token,
                            offered(skill_matches(self.skills(), token.query@)),
                        )
                    } else {
                        r == MenuStep::FindPaths(token)
                    }
                },
    {
        match active_completion_token(s, cursor) {
            None => MenuStep::Show(None),
            Some(token) => {
                proof {
                    assert(is_token(token, s@, cursor as int));
                }
                match previous {
                    Some(p) => {
                        if p.trigger == token.trigger && p.matches(
                            token.start,
                            token.end,
                            token.query.as_str(),
                        ) {
                            return MenuStep::Show(Some(p.clone()));
                        }
                    },
                    None => {},
                }
                if token.trigger == '$' {
                    let items = self.skill_items(token.query.as_str());
                    MenuStep::Show(fresh_menu(token, items))
                } else {
                    MenuStep::FindPaths(token)
                }
            },
        }
    }
}

/// A character in small letters; some become several.
pub uninterp spec fn lowercase_of(c: char) -> Seq<char>;

/// `char::to_lowercase` gives the character's lowercase mapping, of one or more characters.
#[verifier::external_body]
fn lowercase(c: char) -> (r: Vec<char>)
    ensures
        r@ == lowercase_of(c),
{
    c.to_lowercase().collect()
}

/// A text in small letters.
pub open spec fn lowercased(s: Seq<char>) -> Seq<char>
    decreases s.len(),
{
    if s.len() == 0 {
        s
    } else {
        lowercased(s.drop_last()) + lowercase_of(s.last())
    }
}

fn lowercase_text(s: &str) -> (r: Vec<char>)
    ensures
        r@ == lowercased(s@),
{
    let v = text::chars_of(s);
    let mut r: Vec<char> = Vec::new();
    let mut i: usize = 0;
    proof {
        assert(r@ =~= lowercased(v@.take(0)));
    }
    while i < v.len()
        invariant
            i <= v@.len(),
            v@ == s@,
            r@ == lowercased(v@.take(i as int)),
        decreases v@.len() - i,
    {
        let small = lowercase(v[i]);
        proof {
            assert(v@.take(i + 1).drop_last() =~= v@.take(i as int));
            assert(small@.subrange(0, small@.len() as int) =~= small@);
        }
        text::push_chars(&mut r, &small, 0, small.len());
        i += 1;
    }
    proof {
        assert(v@.take(i as int) =~= v@);
    }
    r
}

/// Whether the characters of `query` occur in `candidate` in that order.
pub open spec fn in_order(candidate: Seq<char>, query: Seq<char>) -> bool
    decreases candidate.len(),
{
    if query.len() == 0 {
        true
    } else if candidate.len() == 0 {
        false
    } else if candidate[0] == query[0] {
        in_order(candidate.drop_first(), query.drop_first())
    } else {
        in_order(candidate.drop_first(), query)
    }
}

/// Whether the characters of `q` occur in `c` in that order.
pub fn chars_in_order(c: &Vec<char>, q: &Vec<char>) -> (r: bool)
    ensures
        r == in_order(c@, q@),
{
    let mut i: usize = 0;
    let mut j: usize = 0;
    proof {
        assert(c@.skip(0) =~= c@);
        assert(q@.skip(0) =~= q@);
    }
    while i < c.len() && j < q.len()
        invariant
            i <= c@.len(),
            j <= q@.len(),
            in_order(c@, q@) == in_order(c@.skip(i as int), q@.skip(j as int)),
        decreases c@.len() - i,
    {
        proof {
            assert(c@.skip(i as int).drop_first() =~= c@.skip(i + 1));
            assert(q@.skip(j as int).drop_first() =~= q@.skip(j + 1));
        }
        if c[i] == q[j] {
            j += 1;
        }
        i += 1;
    }
    j == q.len()
}

/// Whether a path matches what has been typed: the letters occur in it in order, capital
/// or small.
pub fn fuzzy_path_match(candidate: &str, query: &str) -> (r: bool)
    ensures
        r == in_order(lowercased(candidate@), lowercased(query@)),
{
    let c = lowercase_text(candidate);
    let q = lowercase_text(query);
    chars_in_order(&c, &q)
}

/// What a directory entry is; `Unknown` where the system does not say.
#[derive(Debug, Clone, Copy, PartialEq, Eq, Structural)]
pub enum EntryKind {
    Directory,
    Other,
    Unknown,
}

/// An entry of a directory.
#[derive(Debug, PartialEq, Eq)]
pub struct DirEntry {
    pub name: String,
    pub kind: EntryKind,
}

/// A directory under search, with its entries by name.
#[derive(Debug, PartialEq, Eq)]
struct ScanFrame {
    dir: String,
    entries: Vec<DirEntry>,
    next: usize,
}

/// A directory under search.
pub struct FrameView {
    pub dir: Seq<char>,
    pub entries: Seq<(Seq<char>, EntryKind)>,
    pub next: int,
}

/// The search as a whole.
#[verifier::ext_equal]
pub struct ScanView {
    pub query: Seq<char>,
    pub found: Seq<Seq<char>>,
    pub scanned: int,
    pub frames: Seq<FrameView>,
}

/// A search for paths below the workspace. It asks for one directory at a time.
#[derive(Debug, PartialEq, Eq)]
pub struct PathScan {
    query: String,
    found: Vec<String>,
    scanned: usize,
    frames: Vec<ScanFrame>,
}

/// What a search needs next.
#[derive(Debug, PartialEq, Eq)]
pub enum ScanStep {
    /// The entries of this directory, below the workspace.
    Read(String),
    /// Another step.
    Continue,
    /// Nothing: the search is over.
    Done,
}

spec fn entry_pairs(v: Seq<DirEntry>) -> Seq<(Seq<char>, EntryKind)> {
    v.map_values(|e: DirEntry| (e.name@, e.kind))
}

spec fn frame_view(f: ScanFrame) -> FrameView {
    FrameView { dir: f.dir@, entries: entry_pairs(f.entries@), next: f.next as int }
}

impl View for PathScan {
    type V = ScanView;

    closed spec fn view(&self) -> ScanView {
        ScanView {
            query: self.query@,
            found: text::views(self.found@),
            scanned: self.scanned as int,
            frames: self.frames@.map_values(|f: ScanFrame| frame_view(f)),
        }
    }
}

/// A name below a directory.
pub open spec fn joined(dir: Seq<char>, name: Seq<char>) -> Seq<char> {
    if dir.len() == 0 {
        name
    } else {
        dir + seq!['/'] + name
    }
}

/// A path with forward slashes only.
pub open spec fn forward(s: Seq<char>) -> Seq<char> {
    s.map_values(
        |c: char|
            if c == '\\' {
                '/'
            } else {
                c
            },
    )
}

/// What a menu would offer for an entry.
pub open spec fn candidate(dir: Seq<char>, e: (Seq<char>, EntryKind)) -> Seq<char> {
    let path = forward(joined(dir, e.0));
    if e.1 == EntryKind::Directory {
        path.push('/')
    } else {
        path
    }
}

pub open spec fn hidden(name: Seq<char>) -> bool {
    name.len() > 0 && name[0] == '.'
}

/// What a search asks for.
pub enum Need {
    Read(Seq<char>),
    Continue,
    Done,
}

/// One step of a search: the next entry of the innermost directory. Hidden entries and
/// those of unknown kind are passed over, and no more entries are looked at than allowed.
pub open spec fn scan_step(s: ScanView) -> (ScanView, Need) {
    if s.frames.len() == 0 || s.scanned >= MAX_WORKSPACE_SCAN_ENTRIES {
        (ScanView { frames: Seq::empty(), ..s }, Need::Done)
    } else {
        let top = s.frames.last();
        if top.next >= top.entries.len() {
            (ScanView { frames: s.frames.drop_last(), ..s }, Need::Continue)
        } else {
            let e = top.entries[top.next];
            let after = ScanView {
                scanned: s.scanned + 1,
                frames: s.frames.drop_last().push(FrameView { next: top.next + 1, ..top }),
                ..s
            };
            if hidden(e.0) || e.1 == EntryKind::Unknown {
                (after, Need::Continue)
            } else {
                let path = candidate(top.dir, e);
                let found = if in_order(lowercased(path), lowercased(s.query)) {
                    ScanView { found: s.found.push(path), ..after }
                } else {
                    after
                };
                if e.1 == EntryKind::Directory && found.scanned < MAX_WORKSPACE_SCAN_ENTRIES {
                    (found, Need::Read(joined(top.dir, e.0)))
                } else {
                    (found, Need::Continue)
                }
            }
        }
    }
}

/// Entries with one more put in behind those whose name does not come after its own.
pub open spec fn with_entry(
    s: Seq<(Seq<char>, EntryKind)>,
    x: (Seq<char>, EntryKind),
) -> Seq<(Seq<char>, EntryKind)>
    decreases s.len(),
{
    if s.len() > 0 && ordered::lex_less(x.0, s.last().0) {
        with_entry(s.drop_last(), x).push(s.last())
    } else {
        s.push(x)
    }
}

/// Entries by name.
pub open spec fn entries_by_name(s: Seq<(Seq<char>, EntryKind)>) -> Seq<(Seq<char>, EntryKind)>
    decreases s.len(),
{
    if s.len() == 0 {
        s
    } else {
        with_entry(entries_by_name(s.drop_last()), s.last())
    }
}

proof fn lemma_with_entry(s: Seq<(Seq<char>, EntryKind)>, p: int, x: (Seq<char>, EntryKind))
    requires
        0 <= p <= s.len(),
        forall|k: int| p <= k < s.len() ==> ordered::lex_less(x.0, (#[trigger] s[k]).0),
        p > 0 ==> !ordered::lex_less(x.0, s[p - 1].0),
    ensures
        with_entry(s, x) == s.insert(p, x),
    decreases s.len(),
{
    if p == s.len() {
        assert(s.insert(p, x) =~= s.push(x));
    } else {
        assert(ordered::lex_less(x.0, s[s.len() - 1].0));
        lemma_with_entry(s.drop_last(), p, x);
        assert(s.drop_last().insert(p, x).push(s.last()) =~= s.insert(p, x));
    }
}

fn sort_entries(entries: Vec<DirEntry>) -> (r: Vec<DirEntry>)
    ensures
        entry_pairs(r@) == entries_by_name(entry_pairs(entries@)),
{
    let mut sorted: Vec<DirEntry> = Vec::new();
    let ghost all = entries@;
    proof {
        assert(entry_pairs(sorted@) =~= entries_by_name(entry_pairs(all).take(0)));
    }
    for entry in iter: entries
        invariant
            iter.seq() == all,
            entry_pairs(sorted@) == entries_by_name(entry_pairs(all).take(iter.index() as int)),
    {
        let ghost n = iter.index() as int;
        let ghost before = sorted@;
        let ghost x = (entry.name@, entry.kind);
        let mut p: usize = sorted.len();
        while p > 0 && ordered::text_less(entry.name.as_str(), sorted[p - 1].name.as_str())
            invariant
                p <= sorted@.len(),
                sorted@ == before,
                forall|k: int|
                    p <= k < entry_pairs(before).len() ==> ordered::lex_less(
                        entry.name@,
                        (#[trigger] entry_pairs(before)[k]).0,
                    ),
            decreases p,
        {
            p -= 1;
        }
        proof {
            lemma_with_entry(entry_pairs(before), p as int, x);
            assert(entry_pairs(all).take(n + 1).drop_last() =~= entry_pairs(all).take(n));
            assert(entry_pairs(all).take(n + 1).last() == x);
        }
        sorted.insert(p, entry);
        proof {
            assert(entry_pairs(sorted@) =~= entry_pairs(before).insert(p as int, x));
        }
    }
    proof {
        assert(entry_pairs(all).take(all.len() as int) =~= entry_pairs(all));
    }
    sorted
}

fn forward_slashes(s: &str) -> (r: String)
    ensures
        r@ == forward(s@),
{
    let v = text::chars_of(s);
    let mut r = String::new();
    let mut i: usize = 0;
    while i < v.len()
        invariant
            i <= v@.len(),
            v@ == s@,
            r@ == forward(s@.take(i as int)),
        decreases v@.len() - i,
    {
        if v[i] == '\\' {
            r.push('/');
        } else {
            r.push(v[i]);
        }
        proof {
            assert(r@ =~= forward(s@.take(i + 1)));
        }
        i += 1;
    }
    proof {
        assert(s@.take(i as int) =~= s@);
    }
    r
}

fn join_path(dir: &str, name: &str) -> (r: String)
    ensures
        r@ == joined(dir@, name@),
{
    if dir.is_empty() {
        name.to_owned()
    } else {
        let mut r = dir.to_owned();
        r.push('/');
        r.append(name);
        proof {
            assert(r@ =~= dir@ + seq!['/'] + name@);
        }
        r
    }
}

/// The entries of a directory as pairs of a name and a kind.
pub closed spec fn listing(v: Seq<DirEntry>) -> Seq<(Seq<char>, EntryKind)> {
    entry_pairs(v)
}

impl PathScan {
    /// A search that has looked at nothing yet; it needs the entries of the workspace itself.
    pub fn new(query: &str) -> (r: PathScan)
        ensures
            r@ == (ScanView {
                query: query@,
                found: Seq::empty(),
                scanned: 0,
                frames: Seq::empty(),
            }),
    {
        let r = PathScan {
            query: query.to_owned(),
            found: Vec::new(),
            scanned: 0,
            frames: Vec::new(),
        };
        proof {
            assert(r@.found =~= Seq::<Seq<char>>::empty());
            assert(r@.frames =~= Seq::<FrameView>::empty());
        }
        r
    }

    /// Takes over the entries of the directory that was asked for.
    pub fn enter(&mut self, dir: String, entries: Vec<DirEntry>)
        ensures
            final(self)@ == (ScanView {
                frames: old(self)@.frames.push(
                    FrameView {
                        dir: dir@,
                        entries: entries_by_name(listing(entries@)),
                        next: 0,
                    },
                ),
                ..old(self)@
            }),
    {
        let ghost before = self@;
        let sorted = sort_entries(entries);
        let frame = ScanFrame { dir, entries: sorted, next: 0 };
        self.frames.push(frame);
        proof {
            assert(self@.frames =~= before.frames.push(frame_view(frame)));
        }
    }

    /// Looks at the next entry.
    pub fn step(&mut self) -> (r: ScanStep)
        ensures
            final(self)@ == scan_step(old(self)@).0,
            match (r, scan_step(old(self)@).1) {
                (ScanStep::Read(dir), Need::Read(d)) => dir@ == d,
                (ScanStep::Continue, Need::Continue) => true,
                (ScanStep::Done, Need::Done) => true,
                _ => false,
            },
    {
        let ghost before = self@;
        proof {
            assert(before.frames.len() == self.frames@.len());
        }
        if self.frames.len() == 0 || self.scanned >= MAX_WORKSPACE_SCAN_ENTRIES {
            self.frames = Vec::new();
            proof {
                assert(self@.frames =~= Seq::<FrameView>::empty());
            }
            return ScanStep::Done;
        }
        let last: usize = self.frames.len() - 1;
        proof {
            assert(before.frames.last() == frame_view(self.frames@[last as int]));
        }
        if self.frames[last].next >= self.frames[last].entries.len() {
            let _ = self.frames.pop();
            proof {
                assert(self@.frames =~= before.frames.drop_last());
            }
            return ScanStep::Continue;
        }
        let at: usize = self.frames[last].next;
        let ghost top = before.frames.last();
        let ghost e = top.entries[at as int];
        let kind = self.frames[last].entries[at].kind;
        let name = self.frames[last].entries[at].name.clone();
        let dir = self.frames[last].dir.clone();
        self.scanned = self.scanned + 1;
        self.frames[last].next = at + 1;
        proof {
            assert(e == (name@, kind));
            assert(self@.frames =~= before.frames.drop_last().push(
                FrameView { next: top.next + 1, ..top },
            ));
        }
        let name_chars = text::chars_of(name.as_str());
        if (name_chars.len() > 0 && name_chars[0] == '.') || kind == EntryKind::Unknown {
            return ScanStep::Continue;
        }
        let relative = join_path(dir.as_str(), name.as_str());
        let mut path = forward_slashes(relative.as_str());
        if kind == EntryKind::Directory {
            path.push('/');
        }
        proof {
            assert(path@ =~= candidate(top.dir, e));
        }
        if fuzzy_path_match(path.as_str(), self.query.as_str()) {
            let ghost found = self.found@;
            self.found.push(path);
            proof {
                assert(self@.found =~= text::views(found).push(path@));
            }
        }
        if kind == EntryKind::Directory && self.scanned < MAX_WORKSPACE_SCAN_ENTRIES {
            ScanStep::Read(relative)
        } else {
            ScanStep::Continue
        }
    }

    /// The paths found, in ascending order, as many as a menu offers.
    pub fn menu(self, token: CompletionToken) -> (r: Option<CompletionMenu>)
        ensures
            is_fresh_menu(r, token, offered(paths_offered(ordered::sorted(self@.found)))),
            r matches Some(m) ==> m@.well_formed(),
    {
        let sorted = ordered::sort_texts(&self.found);
        let mut items: Vec<CompletionItem> = Vec::new();
        let ghost all = text::views(sorted@);
        let mut i: usize = 0;
        proof {
            assert(all.len() == sorted@.len());
            assert(item_views(items@) =~= paths_offered(all.take(0)));
        }
        while i < sorted.len() && i < MAX_COMPLETION_ITEMS
            invariant
                i <= sorted@.len(),
                i <= MAX_COMPLETION_ITEMS,
                all == text::views(sorted@),
                item_views(items@) == paths_offered(all.take(i as int)),
            decreases sorted@.len() - i,
        {
            let ghost before = items@;
            let item = CompletionItem::path(sorted[i].clone());
            items.push(item);
            proof {
                assert(item_views(items@) =~= item_views(before).push(item@));
                assert(paths_offered(all.take(i + 1)) =~= paths_offered(all.take(i as int)).push(
                    path_item(all[i as int]),
                ));
            }
            i += 1;
        }
        proof {
            assert(item_views(items@) =~= offered(paths_offered(all)));
        }
        fresh_menu(token, items)
    }
}

pub open spec fn paths_offered(paths: Seq<Seq<char>>) -> Seq<ItemView> {
    paths.map_values(|p: Seq<char>| path_item(p))
}

/// A search that keeps to the limit goes on keeping to it.
pub proof fn searches_keep_to_the_limit(s: ScanView)
    requires
        s.scanned <= MAX_WORKSPACE_SCAN_ENTRIES,
        s.found.len() <= s.scanned,
    ensures
        scan_step(s).0.scanned <= MAX_WORKSPACE_SCAN_ENTRIES,
        scan_step(s).0.found.len() <= scan_step(s).0.scanned,
{
}

/// Whether some places in a text lie one behind the other and hold the characters of another.
pub open spec fn holds_at(candidate: Seq<char>, query: Seq<char>, places: Seq<int>) -> bool {
    &&& places.len() == query.len()
    &&& forall|k: int|
        0 <= k < places.len() ==> 0 <= #[trigger] places[k] < candidate.len()
            && candidate[places[k]] == query[k]
    &&& forall|j: int, k: int|
        0 <= j < k < places.len() ==> #[trigger] places[j] < #[trigger] places[k]
}

proof fn lemma_in_order_places(candidate: Seq<char>, query: Seq<char>) -> (places: Seq<int>)
    requires
        in_order(candidate, query),
    ensures
        holds_at(candidate, query, places),
    decreases candidate.len(),
{
    if query.len() == 0 {
        Seq::empty()
    } else {
        let rest = candidate.drop_first();
        if candidate[0] == query[0] {
            let later = lemma_in_order_places(rest, query.drop_first());
            let places = seq![0int] + later.map_values(|p: int| p + 1);
            assert forall|k: int| 0 <= k < places.len() implies 0 <= #[trigger] places[k]
                < candidate.len() && candidate[places[k]] == query[k] by {
                if k > 0 {
                    assert(0 <= later[k - 1] < rest.len());
                    assert(rest[later[k - 1]] == query.drop_first()[k - 1]);
                }
            }
            assert forall|j: int, k: int| 0 <= j < k < places.len() implies #[trigger] places[j]
                < #[trigger] places[k] by {
                assert(0 <= later[k - 1]);
                if j > 0 {
                    assert(later[j - 1] < later[k - 1]);
                }
            }
            places
        } else {
            let later = lemma_in_order_places(rest, query);
            let places = later.map_values(|p: int| p + 1);
            assert forall|k: int| 0 <= k < places.len() implies 0 <= #[trigger] places[k]
                < candidate.len() && candidate[places[k]] == query[k] by {
                assert(0 <= later[k] < rest.len());
                assert(rest[later[k]] == query[k]);
            }
            assert forall|j: int, k: int| 0 <= j < k < places.len() implies #[trigger] places[j]
                < #[trigger] places[k] by {
                assert(later[j] < later[k]);
            }
            places
        }
    }
}

proof fn lemma_places_in_order(candidate: Seq<char>, query: Seq<char>, places: Seq<int>)
    requires
        holds_at(candidate, query, places),
    ensures
        in_order(candidate, query),
    decreases candidate.len(),
{
    if query.len() > 0 {
        assert(0 <= places[0] < candidate.len());
        assert(candidate[places[0]] == query[0]);
        let rest = candidate.drop_first();
        if candidate[0] == query[0] {
            let later = places.drop_first().map_values(|p: int| p - 1);
            assert forall|k: int| 0 <= k < later.len() implies 0 <= #[trigger] later[k]
                < rest.len() && rest[later[k]] == query.drop_first()[k] by {
                assert(places[0] < places[k + 1]);
                assert(candidate[places[k + 1]] == query[k + 1]);
            }
            assert forall|j: int, k: int| 0 <= j < k < later.len() implies #[trigger] later[j]
                < #[trigger] later[k] by {
                assert(places[j + 1] < places[k + 1]);
            }
            lemma_places_in_order(rest, query.drop_first(), later);
        } else {
            let later = places.map_values(|p: int| p - 1);
            assert forall|k: int| 0 <= k < later.len() implies 0 <= #[trigger] later[k]
                < rest.len() && rest[later[k]] == query[k] by {
                if k > 0 {
                    assert(places[0] < places[k]);
                }
                assert(candidate[places[k]] == query[k]);
            }
            assert forall|j: int, k: int| 0 <= j < k < later.len() implies #[trigger] later[j]
                < #[trigger] later[k] by {
                assert(places[j] < places[k]);
            }
            lemma_places_in_order(rest, query, later);
        }
    }
}

/// A path matches exactly when there are places in it, one behind the other, that hold the
/// letters that were typed.
pub proof fn matches_hold_the_letters_in_order(candidate: Seq<char>, query: Seq<char>)
    ensures
        in_order(candidate, query) <==> exists|places: Seq<int>| #[trigger]
            holds_at(candidate, query, places),
{
    if in_order(candidate, query) {
        let places = lemma_in_order_places(candidate, query);
        assert(holds_at(candidate, query, places));
    }
    if exists|places: Seq<int>| #[trigger] holds_at(candidate, query, places) {
        let places = choose|places: Seq<int>| #[trigger] holds_at(candidate, query, places);
        lemma_places_in_order(candidate, query, places);
    }
}

/// The skills that a menu offers are those whose name begins with what was typed, all of them
/// and in their order, each with its description.
pub proof fn menus_offer_the_skills_that_begin_so(
    s: Seq<(Seq<char>, Seq<char>)>,
    query: Seq<char>,
)
    ensures
        ({
            let fits = s.filter(|x: (Seq<char>, Seq<char>)| query.is_prefix_of(x.0));
            &&& skill_matches(s, query).len() == fits.len()
            &&& forall|i: int|
                0 <= i < fits.len() ==> (#[trigger] skill_matches(s, query)[i]) == (ItemView {
                    kind: CompletionKind::Skill,
                    value: fits[i].0,
                    detail: Some(fits[i].1),
                })
        }),
    decreases s.len(),
{
    let picks = |x: (Seq<char>, Seq<char>)| query.is_prefix_of(x.0);
    reveal(Seq::filter);
    if s.len() > 0 {
        let init = s.drop_last();
        menus_offer_the_skills_that_begin_so(init, query);
        let before = init.filter(picks);
        assert(before == init.filter(|x: (Seq<char>, Seq<char>)| query.is_prefix_of(x.0)));
        let fits = s.filter(picks);
        assert(fits == if picks(s.last()) {
            before.push(s.last())
        } else {
            before
        });
        assert forall|i: int| 0 <= i < fits.len() implies (#[trigger] skill_matches(s, query)[i])
            == (ItemView {
            kind: CompletionKind::Skill,
            value: fits[i].0,
            detail: Some(fits[i].1),
        }) by {
            if i < before.len() {
                assert(skill_matches(init, query)[i] == (ItemView {
                    kind: CompletionKind::Skill,
                    value: before[i].0,
                    detail: Some(before[i].1),
                }));
            }
        }
    }
}

proof fn lemma_with_skill_in_order(s: Seq<(Seq<char>, Seq<char>)>, x: (Seq<char>, Seq<char>))
    requires
        forall|i: int, j: int|
            0 <= i < j < s.len() ==> !ordered::lex_less((#[trigger] s[j]).0, (#[trigger] s[i]).0),
    ensures
        ({
            let r = with_skill(s, x);
            &&& r.to_multiset() == s.to_multiset().insert(x)
            &&& forall|i: int, j: int|
                0 <= i < j < r.len() ==> !ordered::lex_less(
                    (#[trigger] r[j]).0,
                    (#[trigger] r[i]).0,
                )
            &&& r.len() == s.len() + 1
            &&& r.last() == x || (s.len() > 0 && r.last() == s.last())
        }),
    decreases s.len(),
{
    broadcast use vstd::seq_lib::group_to_multiset_ensures;

    let r = with_skill(s, x);
    if s.len() > 0 && ordered::lex_less(x.0, s.last().0) {
        let init = s.drop_last();
        let last = s.last();
        assert forall|i: int, j: int| 0 <= i < j < init.len() implies !ordered::lex_less(
            (#[trigger] init[j]).0,
            (#[trigger] init[i]).0,
        ) by {
            assert(init[i] == s[i] && init[j] == s[j]);
        }
        lemma_with_skill_in_order(init, x);
        let t = with_skill(init, x);
        assert(init.push(last) =~= s);
        assert(s.to_multiset() =~= init.to_multiset().insert(last));
        assert(r.to_multiset() =~= t.to_multiset().insert(last));
        assert(r.to_multiset() =~= s.to_multiset().insert(x));
        assert forall|i: int| 0 <= i < t.len() implies !ordered::lex_less(
            last.0,
            (#[trigger] t[i]).0,
        ) by {
            assert(t.to_multiset().contains(t[i]));
            if t[i] == x {
                ordered::lex_less_is_irreflexive(x.0);
                if ordered::lex_less(last.0, x.0) {
                    ordered::lex_less_is_transitive(x.0, last.0, x.0);
                }
            } else {
                assert(init.to_multiset().contains(t[i]));
                assert(init.contains(t[i]));
                let k = choose|k: int| 0 <= k < init.len() && init[k] == t[i];
                assert(!ordered::lex_less(s[s.len() - 1].0, s[k].0));
            }
        }
        assert forall|i: int, j: int| 0 <= i < j < r.len() implies !ordered::lex_less(
            (#[trigger] r[j]).0,
            (#[trigger] r[i]).0,
        ) by {
            assert(r[i] == t[i]);
            if j < t.len() {
                assert(r[j] == t[j]);
            }
        }
    } else {
        assert forall|i: int, j: int| 0 <= i < j < r.len() implies !ordered::lex_less(
            (#[trigger] r[j]).0,
            (#[trigger] r[i]).0,
        ) by {
            if j == s.len() {
                let last = s[s.len() - 1];
                assert(!ordered::lex_less(x.0, last.0));
                if i < s.len() - 1 {
                    assert(!ordered::lex_less(last.0, s[i].0));
                    if ordered::lex_less(x.0, s[i].0) {
                        ordered::lex_less_is_total(s[i].0, last.0);
                        if ordered::lex_less(s[i].0, last.0) {
                            ordered::lex_less_is_transitive(x.0, s[i].0, last.0);
                        }
                    }
                }
            }
        }
    }
}

/// The skills by name are the given ones, each as often, and no name comes before one that
/// stands ahead of it.
pub proof fn skills_stand_by_name(s: Seq<(Seq<char>, Seq<char>)>)
    ensures
        skills_by_name(s).to_multiset() == s.to_multiset(),
        skills_by_name(s).len() == s.len(),
        forall|i: int, j: int|
            0 <= i < j < s.len() ==> !ordered::lex_less(
                (#[trigger] skills_by_name(s)[j]).0,
                (#[trigger] skills_by_name(s)[i]).0,
            ),
    decreases s.len(),
{
    broadcast use vstd::seq_lib::group_to_multiset_ensures;

    if s.len() > 0 {
        let init = s.drop_last();
        skills_stand_by_name(init);
        lemma_with_skill_in_order(skills_by_name(init), s.last());
        assert(init.push(s.last()) =~= s);
    }
}

/// A menu offers the first items of a list, as many as it has room for, and leaves none out
/// where there is room.
pub proof fn menus_offer_the_first_items(items: Seq<ItemView>)
    ensures
        offered(items).is_prefix_of(items),
        offered(items).len() <= MAX_COMPLETION_ITEMS,
        items.len() <= MAX_COMPLETION_ITEMS ==> offered(items) == items,
        items.len() > MAX_COMPLETION_ITEMS ==> offered(items).len() == MAX_COMPLETION_ITEMS,
{
    assert(offered(items) =~= items.subrange(0, offered(items).len() as int));
}

/// Stepping through a menu goes round: from each item to the one behind or before it, and the
/// last and the first are neighbours.
pub proof fn menus_go_round(m: MenuView)
    requires
        m.well_formed(),
    ensures
        next_selected(m).selected == (m.selected + 1) % m.items.len() as int,
        previous_selected(m).selected == (m.selected + m.items.len() - 1) % m.items.len() as int,
        next_selected(m).items == m.items,
        previous_selected(m).items == m.items,
        next_selected(m).query == m.query,
        previous_selected(m).query == m.query,
{
    let n = m.items.len() as int;
    if m.selected + 1 < n {
        vstd::arithmetic::div_mod::lemma_small_mod((m.selected + 1) as nat, n as nat);
    } else {
        vstd::arithmetic::div_mod::lemma_mod_self_0(n);
    }
    if m.selected > 0 {
        vstd::arithmetic::div_mod::lemma_mod_add_multiples_vanish(m.selected - 1, n);
        vstd::arithmetic::div_mod::lemma_small_mod((m.selected - 1) as nat, n as nat);
    } else {
        vstd::arithmetic::div_mod::lemma_small_mod((n - 1) as nat, n as nat);
    }
}

/// What an item puts into the input is the sigil of its kind, its value and a blank.
pub proof fn replacements_carry_their_sigil(item: ItemView)
    ensures
        replacement(item).len() == item.value.len() + 2,
        replacement(item)[0] == (if item.kind == CompletionKind::Path {
            '@'
        } else {
            '$'
        }),
        replacement(item).subrange(1, 1 + item.value.len() as int) == item.value,
        replacement(item).last() == ' ',
{
    reveal_strlit("@");
    reveal_strlit("$");
    reveal_strlit(" ");
    assert(replacement(item).subrange(1, 1 + item.value.len() as int) =~= item.value);
}

/// The token at a cursor is the stretch of the text up to the cursor that begins with its
/// sigil, behind white space or at the beginning, and holds neither white space nor another
/// sigil.
pub proof fn tokens_are_words_behind_a_sigil(t: CompletionToken, s: Seq<char>, cursor: int)
    requires
        completable(s, cursor),
        is_token(t, s, cursor),
        text::index_at_byte(s, cursor) <= s.len(),
    ensures
        ({
            let i = text::index_at_byte(s, cursor) as int;
            let from = i - t.query@.len() - 1;
            &&& from >= 0
            &&& s.subrange(from, i) == seq![t.trigger] + t.query@
            &&& t.trigger == '@' || t.trigger == '$'
            &&& from > 0 ==> text::is_space(s[from - 1])
            &&& t.start == text::byte_len(s.take(from))
            &&& t.end == cursor
            &&& forall|k: int|
                0 <= k < t.query@.len() ==> !text::is_space(#[trigger] t.query@[k]) && t.query@[k]
                    != '@' && t.query@[k] != '$'
        }),
{
    let i = text::index_at_byte(s, cursor) as int;
    let before = s.take(i);
    lemma_word_has_no_space(before);
    let word = word_before(s, i);
    let from = input::without_last_word(before).len() as int;
    assert(word =~= seq![t.trigger] + t.query@);
    assert forall|k: int| 0 <= k < t.query@.len() implies !text::is_space(#[trigger] t.query@[k])
        && t.query@[k] != '@' && t.query@[k] != '$' by {
        assert(t.query@[k] == word[k + 1]);
        assert(word[k + 1] == before[from + k + 1]);
        assert(!is_sigil(word[k + 1]));
    }
    if from > 0 {
        assert(before[from - 1] == s[from - 1]);
    }
}

proof fn lemma_word_has_no_space(s: Seq<char>)
    ensures
        input::without_last_word(s).len() <= s.len(),
        forall|i: int|
            input::without_last_word(s).len() <= i < s.len() ==> !text::is_space(#[trigger] s[i]),
        input::without_last_word(s).len() > 0 ==> text::is_space(
            s[input::without_last_word(s).len() - 1],
        ),
    decreases s.len(),
{
    if s.len() > 0 && !text::is_space(s.last()) {
        lemma_word_has_no_space(s.drop_last());
        assert forall|i: int|
            input::without_last_word(s).len() <= i < s.len() implies !text::is_space(
            #[trigger] s[i],
        ) by {
            if i < s.len() - 1 {
                assert(s.drop_last()[i] == s[i]);
            }
        }
    }
}

/// A step of a search takes the next entry of the innermost directory. What is hidden or of
/// unknown kind is passed over; else the path is found exactly when it matches, a directory's
/// with a slash at its end, and a directory is read next.
pub proof fn searches_look_at_one_entry_after_the_other(
    s: ScanView,
    top: FrameView,
    name: Seq<char>,
    kind: EntryKind,
)
    requires
        s.frames.len() > 0,
        s.frames.last() == top,
        s.scanned + 1 < MAX_WORKSPACE_SCAN_ENTRIES,
        0 <= top.next < top.entries.len(),
        top.entries[top.next] == (name, kind),
    ensures
        ({
            let (after, need) = scan_step(s);
            let passed = (name.len() > 0 && name[0] == '.') || kind == EntryKind::Unknown;
            let path = candidate(top.dir, (name, kind));
            let fits = in_order(lowercased(path), lowercased(s.query));
            &&& after.scanned == s.scanned + 1
            &&& after.query == s.query
            &&& after.frames.len() == s.frames.len()
            &&& after.frames.last().next == top.next + 1
            &&& after.frames.last().entries == top.entries
            &&& after.frames.drop_last() == s.frames.drop_last()
            &&& passed ==> after.found == s.found && need == Need::Continue
            &&& !passed && fits ==> after.found == s.found.push(path)
            &&& !passed && !fits ==> after.found == s.found
            &&& !passed ==> (need is Read <==> kind == EntryKind::Directory)
            &&& need matches Need::Read(d) ==> d == if top.dir.len() == 0 {
                name
            } else {
                top.dir + "/"@ + name
            }
            &&& path.len() > 0 ==> (kind == EntryKind::Directory ==> path.last() == '/')
            &&& !path.contains('\\')
        }),
{
    reveal_strlit("/");
    assert("/"@ =~= seq!['/']);
    let (after, need) = scan_step(s);
    assert(after.frames.drop_last() =~= s.frames.drop_last());
    let path = candidate(top.dir, (name, kind));
    assert(!path.contains('\\')) by {
        if path.contains('\\') {
            let k = choose|k: int| 0 <= k < path.len() && path[k] == '\\';
            let whole = forward(joined(top.dir, name));
            if k < whole.len() {
                assert(whole[k] == path[k]);
            }
        }
    }
}

/// A search is over when nothing is left to look at or as many entries have been looked at as
/// allowed; a directory that is done with is left.
pub proof fn searches_come_to_an_end(s: ScanView)
    ensures
        scan_step(s).1 == Need::Done <==> s.frames.len() == 0 || s.scanned
            >= MAX_WORKSPACE_SCAN_ENTRIES,
        scan_step(s).1 == Need::Done ==> scan_step(s).0.found == s.found && scan_step(
            s,
        ).0.frames.len() == 0,
        s.frames.len() > 0 && s.scanned < MAX_WORKSPACE_SCAN_ENTRIES && s.frames.last().next
            >= s.frames.last().entries.len() ==> scan_step(s).0.frames == s.frames.drop_last()
            && scan_step(s).0.found == s.found,
{
}

} // verus!
