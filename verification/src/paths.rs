//! Paths as text: their components and the normal form that comparing them
//! needs. Nothing here looks at a file system.

use crate::text::{concat, join, join_of, same_text, split, split_of, texts, CharClass};
use vstd::prelude::*;

verus! {

/// Whether the path starts at the root.
pub open spec fn is_absolute(path: Seq<char>) -> bool {
    path.len() > 0 && path[0] == '/'
}

/// The components that are left when `part` follows the components `stack`:
/// an empty part and `.` change nothing, `..` takes the last component away
/// (at the root it changes nothing; where a relative path has none left it
/// stays), any other part is added.
pub open spec fn resolve_step(stack: Seq<Seq<char>>, part: Seq<char>, absolute: bool) -> Seq<
    Seq<char>,
> {
    if part.len() == 0 || part == seq!['.'] {
        stack
    } else if part == seq!['.', '.'] {
        if stack.len() > 0 && stack.last() != seq!['.', '.'] {
            stack.drop_last()
        } else if absolute {
            stack
        } else {
            stack.push(part)
        }
    } else {
        stack.push(part)
    }
}

/// The components that are left when the parts are followed in order.
pub open spec fn resolve(parts: Seq<Seq<char>>, absolute: bool) -> Seq<Seq<char>>
    decreases parts.len(),
{
    if parts.len() == 0 {
        Seq::empty()
    } else {
        resolve_step(resolve(parts.drop_last(), absolute), parts.last(), absolute)
    }
}

/// The components of the path in normal form.
pub open spec fn components(path: Seq<char>) -> Seq<Seq<char>> {
    resolve(split(path, CharClass::Is('/')), is_absolute(path))
}

/// The path in normal form: its components with one slash between each two,
/// after a slash where it is absolute.
pub open spec fn normal_form(path: Seq<char>) -> Seq<char> {
    if is_absolute(path) {
        seq!['/'] + join(components(path), seq!['/'])
    } else {
        join(components(path), seq!['/'])
    }
}

/// Whether `path` lies in the directory `base` or is `base` itself: both are
/// absolute or both relative, and the components of `base` begin those of
/// `path`.
pub open spec fn is_within(path: Seq<char>, base: Seq<char>) -> bool {
    is_absolute(path) == is_absolute(base) && components(base).is_prefix_of(components(path))
}

/// A path in normal form.
pub struct NormalPath {
    pub absolute: bool,
    pub parts: Vec<Vec<char>>,
}

impl NormalPath {
    /// Whether this is the normal form of `path`.
    pub open spec fn is_form_of(&self, path: Seq<char>) -> bool {
        self.absolute == is_absolute(path) && texts(self.parts@) == components(path)
    }

    /// The normal form of `path`.
    pub fn of(path: &Vec<char>) -> (r: NormalPath)
        ensures
            r.is_form_of(path@),
    {
        let absolute = path.len() > 0 && path[0] == '/';
        let pieces = split_of(path, CharClass::Is('/'));
        let mut stack: Vec<Vec<char>> = Vec::new();
        let mut i: usize = 0;
        proof {
            assert(texts(pieces@).take(0) == Seq::<Seq<char>>::empty());
            assert(texts(stack@) == Seq::<Seq<char>>::empty());
        }
        while i < pieces.len()
            invariant
                i <= pieces.len(),
                texts(stack@) == resolve(texts(pieces@).take(i as int), absolute),
            decreases pieces.len() - i,
        {
            let part = &pieces[i];
            proof {
                let done = texts(pieces@).take(i as int);
                assert(texts(pieces@).take(i + 1).drop_last() == done);
                assert(texts(pieces@).take(i + 1).last() == part@);
                assert(texts(stack@.push(*part)) == texts(stack@).push(part@));
                if stack.len() > 0 {
                    assert(texts(stack@.drop_last()) == texts(stack@).drop_last());
                    assert(texts(stack@).last() == stack@.last()@);
                }
            }
            let is_dot = part.len() == 1 && part[0] == '.';
            let is_dots = part.len() == 2 && part[0] == '.' && part[1] == '.';
            proof {
                assert(is_dot <==> part@ == seq!['.']) by {
                    if is_dot {
                        assert(part@ =~= seq!['.']);
                    }
                }
                assert(is_dots <==> part@ == seq!['.', '.']) by {
                    if is_dots {
                        assert(part@ =~= seq!['.', '.']);
                    }
                }
            }
            if part.len() == 0 || is_dot {
            } else if is_dots {
                let n: usize = stack.len();
                if n > 0 && !is_parent(&stack[n - 1]) {
                    stack.pop();
                } else if !absolute {
                    stack.push(part.clone());
                }
            } else {
                stack.push(part.clone());
            }
            i += 1;
        }
        proof {
            assert(texts(pieces@).take(pieces.len() as int) == texts(pieces@));
        }
        NormalPath { absolute, parts: stack }
    }

    /// Whether this path lies in `base` or is `base`.
    pub fn starts_with(&self, base: &NormalPath) -> (r: bool)
        ensures
            r == (self.absolute == base.absolute && texts(base.parts@).is_prefix_of(
                texts(self.parts@),
            )),
    {
        if self.absolute != base.absolute || base.parts.len() > self.parts.len() {
            return false;
        }
        let mut i: usize = 0;
        while i < base.parts.len()
            invariant
                i <= base.parts.len() <= self.parts.len(),
                forall|j: int| 0 <= j < i ==> base.parts@[j]@ == self.parts@[j]@,
            decreases base.parts.len() - i,
        {
            if !same_text(&base.parts[i], &self.parts[i]) {
                proof {
                    assert(texts(base.parts@)[i as int] != texts(self.parts@)[i as int]);
                }
                return false;
            }
            i += 1;
        }
        proof {
            assert(texts(base.parts@) =~= texts(self.parts@).subrange(
                0,
                base.parts.len() as int,
            ));
        }
        true
    }

    /// The path written out.
    pub fn render(&self) -> (r: Vec<char>)
        ensures
            r@ == if self.absolute {
                seq!['/'] + join(texts(self.parts@), seq!['/'])
            } else {
                join(texts(self.parts@), seq!['/'])
            },
    {
        let mut slash: Vec<char> = Vec::new();
        slash.push('/');
        proof {
            assert(slash@ == seq!['/']);
        }
        let body = join_of(&self.parts, &slash);
        if self.absolute {
            concat(&slash, &body)
        } else {
            body
        }
    }
}

fn is_parent(part: &Vec<char>) -> (r: bool)
    ensures
        r == (part@ == seq!['.', '.']),
{
    let r = part.len() == 2 && part[0] == '.' && part[1] == '.';
    proof {
        if r {
            assert(part@ =~= seq!['.', '.']);
        }
    }
    r
}

} // verus!
