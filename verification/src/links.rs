//! Looking links up, and finding out where to listen for them.

use crate::config::{link_models, Config, LinkConfig, LinkMode, LinkModel};
use crate::text::str_eq;
use vstd::prelude::*;

verus! {

/// The names and listening addresses of the links of one mode, in order.
pub open spec fn listeners_of(links: Seq<LinkModel>, mode: LinkMode) -> Seq<(Seq<char>, Seq<char>)>
    decreases links.len(),
{
    if links.len() == 0 {
        Seq::empty()
    } else {
        let front = listeners_of(links.drop_last(), mode);
        if links.last().mode == mode {
            front.push((links.last().id, links.last().listen->0))
        } else {
            front
        }
    }
}

/// What a list of listeners says.
pub open spec fn listener_models(list: Seq<(String, String)>) -> Seq<(Seq<char>, Seq<char>)> {
    list.map_values(|l: (String, String)| (l.0@, l.1@))
}

/// Where to listen for the links of one mode. Every such link has a listening
/// address, as validation makes sure.
pub fn listeners(config: &Config, mode: LinkMode) -> (list: Vec<(String, String)>)
    requires
        forall|i: int|
            0 <= i < config@.links.len() && (#[trigger] config@.links[i]).mode == mode
                ==> config@.links[i].listen is Some,
    ensures
        listener_models(list@) == listeners_of(config@.links, mode),
{
    let mut list: Vec<(String, String)> = Vec::new();
    let mut i: usize = 0;
    assert(config@.links.take(0) =~= Seq::<LinkModel>::empty());
    assert(listener_models(list@) =~= listeners_of(config@.links.take(0), mode));
    while i < config.links.len()
        invariant
            i <= config.links@.len(),
            listener_models(list@) == listeners_of(config@.links.take(i as int), mode),
            forall|i: int|
                0 <= i < config@.links.len() && (#[trigger] config@.links[i]).mode == mode
                    ==> config@.links[i].listen is Some,
        decreases config.links@.len() - i,
    {
        let link = &config.links[i];
        let ghost before = listener_models(list@);
        assert(config@.links[i as int] == link@);
        assert(config@.links.take(i + 1).drop_last() =~= config@.links.take(i as int));
        assert(config@.links.take(i + 1).last() == link@);
        if link.mode == mode {
            if let Some(listen) = &link.listen {
                list.push((link.id.clone(), listen.clone()));
                assert(listener_models(list@) =~= before.push((link.id@, listen@)));
            }
        }
        i = i + 1;
    }
    assert(config@.links.take(i as int) =~= config@.links);
    list
}

/// Something that goes by a name.
pub trait Named {
    /// The name.
    spec fn named(&self) -> Seq<char>;

    /// The name.
    fn name(&self) -> (s: &str)
        ensures
            s@ == self.named(),
    ;
}

impl Named for LinkConfig {
    open spec fn named(&self) -> Seq<char> {
        self.id@
    }

    fn name(&self) -> (s: &str) {
        self.id.as_str()
    }
}

/// The names of things, in order.
pub open spec fn names_of<T: Named>(items: Seq<T>) -> Seq<Seq<char>> {
    items.map_values(|t: T| t.named())
}

/// Finds the first thing of that name.
pub fn named_index<T: Named>(items: &Vec<T>, id: &str) -> (r: Option<usize>)
    ensures
        names_of(items@).index_of_first(id@) == (match r {
            Some(i) => Some(i as int),
            None => None,
        }),
        r matches Some(i) ==> i < items@.len() && items@[i as int].named() == id@,
{
    let ghost names = names_of(items@);
    proof {
        names.index_of_first_ensures(id@);
    }
    let mut i: usize = 0;
    while i < items.len()
        invariant
            i <= items@.len(),
            names == names_of(items@),
            forall|j: int| 0 <= j < i ==> #[trigger] names[j] != id@,
        decreases items@.len() - i,
    {
        assert(names[i as int] == items@[i as int].named());
        if str_eq(items[i].name(), id) {
            proof {
                names.index_of_first_ensures(id@);
            }
            return Some(i);
        }
        i = i + 1;
    }
    None
}

/// The names of links, in order.
pub open spec fn link_names(links: Seq<LinkModel>) -> Seq<Seq<char>> {
    links.map_values(|l: LinkModel| l.id)
}

/// The first link of that name.
pub open spec fn find_link(links: Seq<LinkModel>, id: Seq<char>) -> Option<int> {
    link_names(links).index_of_first(id)
}

/// What `find_link` says.
pub proof fn lemma_find_link(links: Seq<LinkModel>, id: Seq<char>)
    ensures
        match find_link(links, id) {
            Some(i) => {
                &&& 0 <= i < links.len()
                &&& links[i].id == id
                &&& forall|j: int| 0 <= j < i ==> (#[trigger] links[j]).id != id
            },
            None => forall|j: int| 0 <= j < links.len() ==> (#[trigger] links[j]).id != id,
        },
{
    let names = link_names(links);
    names.index_of_first_ensures(id);
    assert(forall|j: int| 0 <= j < links.len() ==> (#[trigger] links[j]).id == names[j]);
}

/// Finds the first link of that name.
pub fn link_index(links: &Vec<LinkConfig>, id: &str) -> (r: Option<usize>)
    ensures
        find_link(link_models(links@), id@) == (match r {
            Some(i) => Some(i as int),
            None => None,
        }),
        r matches Some(i) ==> i < links@.len() && links@[i as int].id@ == id@,
{
    assert(names_of(links@) =~= link_names(link_models(links@)));
    named_index(links, id)
}

/// A side listens for every link of the mode that it accepts connections for, once
/// each and in order, where that link says, and for nothing else.
pub proof fn law_every_link_of_a_mode_is_listened_for(links: Seq<LinkModel>, mode: LinkMode)
    ensures
        listeners_of(links, mode) == links.filter(|l: LinkModel| l.mode == mode).map_values(
            |l: LinkModel| (l.id, l.listen->0),
        ),
    decreases links.len(),
{
    reveal(Seq::filter);
    let wanted = |l: LinkModel| l.mode == mode;
    let shown = |l: LinkModel| (l.id, l.listen->0);
    if links.len() > 0 {
        law_every_link_of_a_mode_is_listened_for(links.drop_last(), mode);
    }
    assert(listeners_of(links, mode) =~= links.filter(wanted).map_values(shown));
}

/// What a list of listeners says are its names and addresses, one for one and in order.
pub proof fn law_model_has_what_the_listeners_have(list: Seq<(String, String)>, i: int)
    requires
        0 <= i < list.len(),
    ensures
        listener_models(list).len() == list.len(),
        listener_models(list)[i] == (list[i].0@, list[i].1@),
{
}

/// The link that is found is the first of its name; none is found exactly where there is
/// none.
pub proof fn law_first_link_of_a_name_is_found(links: Seq<LinkModel>, id: Seq<char>, i: int)
    ensures
        find_link(links, id) == Some(i) <==> 0 <= i < links.len() && links[i].id == id && forall|
            j: int,
        |
            0 <= j < i ==> (#[trigger] links[j]).id != id,
        find_link(links, id) is None <==> forall|j: int|
            0 <= j < links.len() ==> (#[trigger] links[j]).id != id,
{
    lemma_find_link(links, id);
    if find_link(links, id) is Some {
        let k = find_link(links, id)->0;
        assert(links[k].id == id);
        if 0 <= i < links.len() && links[i].id == id && k < i {
            assert(links[k].id == id);
        }
    }
}

} // verus!
