//! Module names: which module an `import` means, seen from the one that asks.

use vstd::prelude::*;
use vstd::string::*;

use crate::text::push_char;

verus! {

/// The text between slashes, in order.
pub open spec fn words(text: Seq<char>) -> Seq<Seq<char>>
    decreases text.len(),
{
    if text.len() == 0 {
        seq![Seq::empty()]
    } else {
        let before = words(text.drop_last());
        if text.last() == '/' {
            before.push(Seq::empty())
        } else {
            before.update(before.len() - 1, before.last().push(text.last()))
        }
    }
}

/// Where a walk has got to: the names below the start, and how far above it.
#[verifier::ext_equal]
pub struct Place {
    pub names: Seq<Seq<char>>,
    pub above: nat,
}

/// Where a walk gets to by one more word.
pub open spec fn stepped(place: Place, word: Seq<char>) -> Place {
    if word == Seq::<char>::empty() || word == seq!['.'] {
        place
    } else if word == seq!['.', '.'] {
        if place.names.len() > 0 {
            Place { names: place.names.drop_last(), ..place }
        } else {
            Place { above: place.above + 1, ..place }
        }
    } else {
        Place { names: place.names.push(word), ..place }
    }
}

/// Where a walk along words gets to.
pub open spec fn walked(list: Seq<Seq<char>>) -> Place
    decreases list.len(),
{
    if list.len() == 0 {
        Place { names: Seq::empty(), above: 0 }
    } else {
        stepped(walked(list.drop_last()), list.last())
    }
}

/// Words put together with slashes between them.
pub open spec fn joined(list: Seq<Seq<char>>) -> Seq<char>
    decreases list.len(),
{
    if list.len() == 0 {
        Seq::empty()
    } else if list.len() == 1 {
        list[0]
    } else {
        joined(list.drop_last()).push('/') + list.last()
    }
}

/// Whether text begins with `./`.
pub open spec fn starts_here(text: Seq<char>) -> bool {
    text.len() >= 2 && text[0] == '.' && text[1] == '/'
}

/// Whether text begins with `../`.
pub open spec fn starts_above(text: Seq<char>) -> bool {
    text.len() >= 3 && text[0] == '.' && text[1] == '.' && text[2] == '/'
}

/// What comes before the last slash of text; nothing where there is none.
pub open spec fn directory(text: Seq<char>) -> Seq<char>
    decreases text.len(),
{
    if text.len() == 0 {
        Seq::empty()
    } else if text.last() == '/' {
        text.drop_last()
    } else {
        directory(text.drop_last())
    }
}

/// A relative name seen from a module, before it is tidied.
pub open spec fn beside(importer: Seq<char>, name: Seq<char>) -> Seq<char> {
    if directory(importer).len() == 0 {
        name
    } else {
        directory(importer).push('/') + name
    }
}

/// The words of a tidied name.
pub open spec fn tidied(path: Seq<char>) -> Seq<Seq<char>> {
    let place = walked(words(path));
    let start = if place.above > 0 {
        Seq::new(place.above, |i: int| seq!['.', '.'])
    } else if starts_here(path) {
        seq![seq!['.']]
    } else {
        Seq::empty()
    };
    start + place.names
}

/// Which module a name means, seen from a module.
///
/// A name that begins with `./` or `../` is looked for beside the module that
/// asks; any other is what it says.
pub open spec fn spec_resolve(importer: Seq<char>, name: Seq<char>) -> Seq<char> {
    if !starts_here(name) && !starts_above(name) {
        name
    } else {
        let list = tidied(beside(importer, name));
        if list.len() == 0 {
            seq!['.']
        } else {
            joined(list)
        }
    }
}

/// The characters of text.
fn characters(text: &str) -> (out: Vec<char>)
    ensures
        out@ == text@,
{
    let count: usize = text.unicode_len();
    let mut out: Vec<char> = Vec::new();
    let mut i: usize = 0;
    while i < count
        invariant
            count == text@.len(),
            i <= count,
            out@ == text@.take(i as int),
        decreases count - i,
    {
        out.push(text.get_char(i));
        proof {
            assert(text@.take(i as int + 1) =~= text@.take(i as int).push(text@[i as int]));
        }
        i = i + 1;
    }
    proof {
        assert(text@.take(i as int) =~= text@);
    }
    out
}

/// The text that characters make.
fn text_from(characters: &Vec<char>) -> (text: String)
    ensures
        text@ == characters@,
{
    let mut text = String::new();
    let mut i: usize = 0;
    while i < characters.len()
        invariant
            i <= characters@.len(),
            text@ == characters@.take(i as int),
        decreases characters@.len() - i,
    {
        push_char(&mut text, characters[i]);
        proof {
            assert(characters@.take(i as int + 1) =~= characters@.take(i as int).push(
                characters@[i as int],
            ));
        }
        i = i + 1;
    }
    proof {
        assert(characters@.take(i as int) =~= characters@);
    }
    text
}

/// A relative name seen from a module, before it is tidied.
fn put_beside(importer: &Vec<char>, name: &Vec<char>) -> (path: Vec<char>)
    ensures
        path@ == beside(importer@, name@),
{
    let mut end: usize = importer.len();
    proof {
        assert(importer@.take(end as int) =~= importer@);
    }
    while end > 0 && importer[end - 1] != '/'
        invariant
            end <= importer@.len(),
            directory(importer@) == directory(importer@.take(end as int)),
        decreases end,
    {
        proof {
            assert(importer@.take(end as int).drop_last() =~= importer@.take(end as int - 1));
        }
        end = end - 1;
    }
    let mut path: Vec<char> = Vec::new();
    if end > 1 {
        let mut i: usize = 0;
        while i < end
            invariant
                end <= importer@.len(),
                i <= end,
                path@ == importer@.take(i as int),
            decreases end - i,
        {
            path.push(importer[i]);
            proof {
                assert(importer@.take(i as int + 1) =~= importer@.take(i as int).push(
                    importer@[i as int],
                ));
            }
            i = i + 1;
        }
    }
    proof {
        if end > 0 {
            assert(importer@.take(end as int).drop_last() =~= importer@.take(end as int - 1));
        }
        if end > 1 {
            assert(path@ =~= directory(importer@).push('/'));
        }
    }
    let ghost front = path@;
    let mut j: usize = 0;
    while j < name.len()
        invariant
            j <= name@.len(),
            path@ == front + name@.take(j as int),
        decreases name@.len() - j,
    {
        path.push(name[j]);
        proof {
            assert(path@ =~= front + name@.take(j as int + 1));
        }
        j = j + 1;
    }
    proof {
        assert(name@.take(j as int) =~= name@);
        assert(path@ =~= beside(importer@, name@));
    }
    path
}

/// The words of a list of lists of characters.
pub open spec fn word_views(list: Seq<Vec<char>>) -> Seq<Seq<char>> {
    list.map_values(|word: Vec<char>| word@)
}

/// The text between slashes, in order.
fn split(path: &Vec<char>) -> (list: Vec<Vec<char>>)
    ensures
        word_views(list@) == words(path@),
{
    let mut list: Vec<Vec<char>> = Vec::new();
    let mut word: Vec<char> = Vec::new();
    let mut i: usize = 0;
    proof {
        assert(word_views(list@).push(word@) =~= words(path@.take(0)));
    }
    while i < path.len()
        invariant
            i <= path@.len(),
            word_views(list@).push(word@) == words(path@.take(i as int)),
        decreases path@.len() - i,
    {
        let ghost earlier = word_views(list@);
        let ghost sofar = words(path@.take(i as int));
        let ghost begun = word@;
        proof {
            assert(path@.take(i as int + 1).drop_last() =~= path@.take(i as int));
            assert(path@.take(i as int + 1).last() == path@[i as int]);
            assert(sofar.last() == begun);
        }
        if path[i] == '/' {
            let mut next: Vec<char> = Vec::new();
            core::mem::swap(&mut next, &mut word);
            list.push(next);
            proof {
                assert(word_views(list@) =~= earlier.push(begun));
                assert(word@ =~= Seq::<char>::empty());
                assert(word_views(list@).push(word@) =~= sofar.push(Seq::empty()));
            }
        } else {
            word.push(path[i]);
            proof {
                assert(earlier.push(word@) =~= sofar.update(sofar.len() - 1, word@));
            }
        }
        i = i + 1;
    }
    proof {
        assert(path@.take(i as int) =~= path@);
    }
    let ghost earlier = word_views(list@);
    let ghost last = word@;
    list.push(word);
    proof {
        assert(word_views(list@) =~= earlier.push(last));
    }
    list
}

/// Walk along words: the names below the start, and how far above it.
fn walk(list: Vec<Vec<char>>) -> (r: (Vec<Vec<char>>, usize))
    ensures
        (Place { names: word_views(r.0@), above: r.1 as nat }) == walked(word_views(list@)),
{
    let ghost all = word_views(list@);
    let count: usize = list.len();
    let mut names: Vec<Vec<char>> = Vec::new();
    let mut above: usize = 0;
    let mut i: usize = 0;
    proof {
        assert((Place { names: word_views(names@), above: 0 }) =~= walked(all.take(0)));
    }
    while i < count
        invariant
            count == list@.len(),
            all == word_views(list@),
            i <= count,
            above <= i,
            (Place { names: word_views(names@), above: above as nat }) == walked(
                all.take(i as int),
            ),
        decreases count - i,
    {
        let ghost before = word_views(names@);
        let ghost here = walked(all.take(i as int));
        let word = &list[i];
        proof {
            assert(all.take(i as int + 1).drop_last() =~= all.take(i as int));
            assert(all.take(i as int + 1).last() == word@);
            assert(word@.len() == 0 ==> word@ =~= Seq::<char>::empty());
            assert(word@.len() == 1 && word@[0] == '.' ==> word@ =~= seq!['.']);
            assert(word@.len() == 2 && word@[0] == '.' && word@[1] == '.' ==> word@
                =~= seq!['.', '.']);
        }
        if word.len() == 0 || (word.len() == 1 && word[0] == '.') {
        } else if word.len() == 2 && word[0] == '.' && word[1] == '.' {
            match names.pop() {
                Some(_) => {
                    proof {
                        assert(word_views(names@) =~= before.drop_last());
                    }
                },
                None => {
                    above = above + 1;
                    proof {
                        assert(word_views(names@) =~= before);
                    }
                },
            }
        } else {
            let copy: Vec<char> = copy_word(word);
            names.push(copy);
            proof {
                assert(word_views(names@) =~= before.push(word@));
            }
        }
        i = i + 1;
    }
    proof {
        assert(all.take(i as int) =~= all);
    }
    (names, above)
}

/// A copy of a word.
fn copy_word(word: &Vec<char>) -> (copy: Vec<char>)
    ensures
        copy@ == word@,
{
    let mut copy: Vec<char> = Vec::new();
    let mut i: usize = 0;
    while i < word.len()
        invariant
            i <= word@.len(),
            copy@ == word@.take(i as int),
        decreases word@.len() - i,
    {
        copy.push(word[i]);
        proof {
            assert(word@.take(i as int + 1) =~= word@.take(i as int).push(word@[i as int]));
        }
        i = i + 1;
    }
    proof {
        assert(word@.take(i as int) =~= word@);
    }
    copy
}

/// Append a word, with a slash before it unless it is the first.
fn append_word(text: &mut Vec<char>, word: &Vec<char>, first: bool)
    ensures
        final(text)@ == if first {
            old(text)@ + word@
        } else {
            old(text)@.push('/') + word@
        },
{
    if !first {
        text.push('/');
    }
    let ghost front = text@;
    let mut i: usize = 0;
    while i < word.len()
        invariant
            i <= word@.len(),
            text@ == front + word@.take(i as int),
        decreases word@.len() - i,
    {
        text.push(word[i]);
        proof {
            assert(text@ =~= front + word@.take(i as int + 1));
        }
        i = i + 1;
    }
    proof {
        assert(word@.take(i as int) =~= word@);
    }
}

/// Which module a name means, seen from a module.
pub fn resolve_module(importer: &str, name: &str) -> (resolved: String)
    ensures
        resolved@ == spec_resolve(importer@, name@),
{
    let asked: Vec<char> = characters(name);
    let here: bool = asked.len() >= 2 && asked[0] == '.' && asked[1] == '/';
    let upward: bool = asked.len() >= 3 && asked[0] == '.' && asked[1] == '.' && asked[2] == '/';
    if !here && !upward {
        return name.to_owned();
    }
    let path: Vec<char> = put_beside(&characters(importer), &asked);
    let (names, above) = walk(split(&path));
    let ghost place = walked(words(path@));
    let ghost list = tidied(path@);
    let ghost climbs = Seq::new(place.above, |i: int| seq!['.', '.']);
    let mut resolved: Vec<char> = Vec::new();
    let mut parent: Vec<char> = Vec::new();
    parent.push('.');
    parent.push('.');
    proof {
        assert(parent@ =~= seq!['.', '.']);
    }
    let mut i: usize = 0;
    while i < above
        invariant
            above == place.above,
            climbs == Seq::new(place.above, |i: int| seq!['.', '.']),
            parent@ == seq!['.', '.'],
            i <= above,
            resolved@ == joined(climbs.take(i as int)),
        decreases above - i,
    {
        append_word(&mut resolved, &parent, i == 0);
        proof {
            let upto = climbs.take(i as int + 1);
            assert(upto.drop_last() =~= climbs.take(i as int));
            assert(upto.last() == seq!['.', '.']);
            if i == 0 {
                assert(resolved@ =~= seq!['.', '.']);
            }
        }
        i = i + 1;
    }
    let ghost mut start = climbs;
    let mut begun: bool = above > 0;
    proof {
        assert(climbs.take(i as int) =~= climbs);
    }
    if above == 0 && path.len() >= 2 && path[0] == '.' && path[1] == '/' {
        resolved.push('.');
        begun = true;
        proof {
            start = seq![seq!['.']];
            assert(resolved@ =~= seq!['.']);
        }
    }
    proof {
        assert(list =~= start + place.names);
        assert(start.len() > 0 <==> begun);
        assert(list.take(start.len() as int) =~= start);
    }
    let mut j: usize = 0;
    while j < names.len()
        invariant
            word_views(names@) == place.names,
            list == start + place.names,
            j <= names@.len(),
            begun == (start.len() + j > 0),
            resolved@ == joined(list.take(start.len() + j)),
        decreases names@.len() - j,
    {
        append_word(&mut resolved, &names[j], !begun);
        begun = true;
        proof {
            let upto = list.take(start.len() + j + 1);
            assert(upto.drop_last() =~= list.take(start.len() + j));
            assert(upto.last() == place.names[j as int]);
            assert(place.names[j as int] == names@[j as int]@);
            if start.len() + j == 0 {
                assert(resolved@ =~= upto[0]);
            }
        }
        j = j + 1;
    }
    proof {
        assert(list.take(start.len() + j) =~= list);
    }
    if !begun {
        resolved.push('.');
        proof {
            assert(resolved@ =~= seq!['.']);
        }
    }
    text_from(&resolved)
}

/// A name that is not relative means itself, whoever asks.
pub proof fn law_logical_name_is_itself(importer: Seq<char>, name: Seq<char>)
    requires
        !starts_here(name),
        !starts_above(name),
    ensures
        spec_resolve(importer, name) == name,
{
}

/// Which directory a module is in decides what a relative name means to it,
/// and nothing else of its name does.
pub proof fn law_siblings_agree(one: Seq<char>, other: Seq<char>, name: Seq<char>)
    requires
        directory(one) == directory(other),
    ensures
        spec_resolve(one, name) == spec_resolve(other, name),
{
}

} // verus!
