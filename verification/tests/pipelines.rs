use core::cell::Cell;
use core::ops::ControlFlow;
use internal_iterator::{
    from_fn, BreakValue, Consumer, Generator, InternalIterator, InternalIteratorExt,
    IntoInternalIterator, IteratorExt, Sink,
};

fn check(iter: impl InternalIterator<Item = i32>, expect: &[i32]) {
    assert_eq!(iter.collect::<Vec<_>>(), expect);
}

struct OneToFour;

impl Generator<i32> for OneToFour {
    fn generate<'a, S: Sink<'a, i32>>(self, f: &mut S) -> ControlFlow<BreakValue<'a>> {
        f.put(1)?;
        f.put(2)?;
        f.put(3)?;
        f.put(4)?;
        ControlFlow::Continue(())
    }
}

fn make_iter() -> impl InternalIterator<Item = i32> {
    from_fn(OneToFour)
}

#[test]
fn pipeline_tests() {
    check(make_iter(), &[1, 2, 3, 4]);
    check(make_iter().map(|x: i32| x * 2), &[2, 4, 6, 8]);
    check(make_iter().filter(|x: &i32| *x > 2), &[3, 4]);
    check(make_iter().filter(|x: &i32| *x <= 2), &[1, 2]);
    check(make_iter().chain([7, 8, 9]), &[1, 2, 3, 4, 7, 8, 9]);
}

fn use_static_iterator(iter: impl InternalIterator<Item = i32> + 'static) {
    assert_eq!(iter.collect::<Vec<_>>(), &[1, 2, 3]);
}

struct Climbing {
    a: i32,
}

impl Generator<i32> for Climbing {
    fn generate<'a, S: Sink<'a, i32>>(self, f: &mut S) -> ControlFlow<BreakValue<'a>> {
        let mut a = self.a;
        f.put(a)?;
        a += 1;
        f.put(a)?;
        a += 1;
        f.put(a)?;
        ControlFlow::Continue(())
    }
}

#[test]
fn can_be_static() {
    let a = 1;
    let iter = from_fn(Climbing { a });
    use_static_iterator(iter);
}

struct Flagging<'a> {
    exhausted: &'a mut bool,
}

impl<'a> InternalIterator for Flagging<'a> {
    type Item = i32;

    fn try_for_each<C: Consumer<i32>>(self, consumer: C) -> (ControlFlow<C::Break>, C) {
        let mut consumer = consumer;
        for &x in &[1, 2, 3] {
            let (signal, next) = consumer.accept(x);
            consumer = next;
            if let ControlFlow::Break(value) = signal {
                return (ControlFlow::Break(value), consumer);
            }
        }
        // take(3) shouldn't expect any more items
        *self.exhausted = true;
        (ControlFlow::Continue(()), consumer)
    }
}

#[test]
fn take_short_circuit() {
    let mut exhausted = false;
    let iter = Flagging { exhausted: &mut exhausted };

    let items = iter.take(3).collect::<Vec<_>>();
    assert_eq!(items, vec![1, 2, 3]);
    assert!(!exhausted);
}

struct Untouchable;

impl InternalIterator for Untouchable {
    type Item = i32;

    fn try_for_each<C: Consumer<i32>>(self, _: C) -> (ControlFlow<C::Break>, C) {
        unreachable!()
    }
}

#[test]
fn take_empty() {
    // We should not hit the unreachable panic.
    assert_eq!(Untouchable.take(0).next(), None);
}

#[test]
fn map_side_effects_preserved() {
    let mut closure_calls = 0;
    let count = (10..25)
        .into_internal()
        .map(|x: i32| {
            closure_calls += 1;
            x * 2
        })
        .count();
    assert_eq!(count, 15);
    assert_eq!(closure_calls, 15);

    let mut closure_calls = 0;
    let nth = (10..25)
        .into_internal()
        .map(|x: i32| {
            closure_calls += 1;
            x * 2
        })
        .nth(12);
    assert_eq!(nth, Some(44));
    assert_eq!(closure_calls, 13);

    let mut closure_calls = 0;
    let last = (10..25)
        .into_internal()
        .map(|x: i32| {
            closure_calls += 1;
            x * 2
        })
        .last();
    assert_eq!(last, Some(48));
    assert_eq!(closure_calls, 15);
}

struct Weird<'a>(i32, &'a Cell<i32>);

impl Clone for Weird<'_> {
    fn clone(&self) -> Self {
        self.1.set(self.1.get() + 1);
        Weird(self.0, self.1)
    }
}

#[test]
fn clone_side_effects_preserved() {
    let clones = Cell::new(0);
    let weirds = [
        &Weird(0, &clones),
        &Weird(1, &clones),
        &Weird(2, &clones),
        &Weird(3, &clones),
    ];

    let count = weirds.into_internal_iter().cloned().count();
    assert_eq!(count, 4);
    assert_eq!(clones.get(), 4);
    clones.set(0);

    let nth = weirds.into_internal_iter().cloned().nth(2);
    assert_eq!(nth.unwrap().0, 2);
    assert_eq!(clones.get(), 3);
    clones.set(0);

    let last = weirds.into_internal_iter().cloned().last();
    assert_eq!(last.unwrap().0, 3);
    assert_eq!(clones.get(), 4);
}

#[derive(Clone)]
struct Tree(i32, Vec<Tree>);

impl Tree {
    fn into_iter(self) -> TreeIter {
        TreeIter { tree: self, position: vec![0] }
    }

    fn into_internal_iter(self) -> TreeInternalIter {
        TreeInternalIter { tree: self }
    }
}

struct TreeIter {
    tree: Tree,
    position: Vec<usize>,
}

// returns None if walking down the tree went out of bounds in child vector in
// some level
fn find_subtree<'a>(tree: &'a Tree, pos: &[usize]) -> Option<&'a Tree> {
    match pos {
        [] => Some(tree),
        [idx, rest @ ..] => {
            let child = &tree.1.get(*idx)?;
            find_subtree(child, rest)
        }
    }
}

impl Iterator for TreeIter {
    type Item = i32;

    fn next(&mut self) -> Option<i32> {
        loop {
            match self.position.as_slice() {
                [0, rest @ ..] => {
                    let current_tree = find_subtree(&self.tree, &rest);
                    if let Some(tree) = current_tree {
                        let result = Some(tree.0);
                        if !tree.1.is_empty() {
                            // node has children, move position at first child
                            // of current position
                            self.position.push(0);
                        } else {
                            // node has no children, move position to next
                            // sibling
                            *self.position.last_mut().unwrap() += 1;
                        }
                        return result;
                    } else {
                        // current position is out of bounds - move up by one
                        // and advance to next sibling, then loop over to try
                        // again
                        self.position.pop();
                        *self.position.last_mut().unwrap() += 1;
                    }
                }
                [1] => {
                    return None;
                }
                _ => unreachable!(),
            }
        }
    }
}

struct TreeInternalIter {
    tree: Tree,
}

// the consumer is handed down by value and comes back up with each answer
fn for_each_helper<C: Consumer<i32>>(tree: Tree, consumer: C) -> (ControlFlow<C::Break>, C) {
    let (signal, mut consumer) = consumer.accept(tree.0);
    if let ControlFlow::Break(value) = signal {
        return (ControlFlow::Break(value), consumer);
    }
    for child in tree.1 {
        let (signal, next) = for_each_helper(child, consumer);
        consumer = next;
        if let ControlFlow::Break(value) = signal {
            return (ControlFlow::Break(value), consumer);
        }
    }
    (ControlFlow::Continue(()), consumer)
}

impl InternalIterator for TreeInternalIter {
    type Item = i32;

    fn try_for_each<C: Consumer<i32>>(self, consumer: C) -> (ControlFlow<C::Break>, C) {
        for_each_helper(self.tree, consumer)
    }
}

#[test]
fn readme_example() {
    let tree = Tree(4, vec![Tree(1, vec![]), Tree(3, vec![Tree(5, vec![])]), Tree(2, vec![])]);

    let iterator_result = tree
        .clone()
        .into_iter()
        .map(|x| x * 2)
        .filter(|&x| x > 5)
        .flat_map(|x| [x, x * 10])
        .collect::<Vec<_>>();

    assert_eq!(iterator_result, vec![8, 80, 6, 60, 10, 100]);

    let internal_iterator_result = tree
        .clone()
        .into_internal_iter()
        .map(|x: i32| x * 2)
        .filter(|x: &i32| *x > 5)
        .flat_map(|x: i32| [x, x * 10])
        .collect::<Vec<_>>();

    assert_eq!(internal_iterator_result, vec![8, 80, 6, 60, 10, 100]);
}
