use musicman::search::try_search;

/// The search as a user types it: narrow the candidates one byte of the
/// term at a time; `None` where a byte prefix would cut a character.
fn stepwise(names: &[String], target: &str) -> Option<Vec<String>> {
    if names.iter().any(|n| n == target) {
        return Some(vec![target.to_string()]);
    }
    let mut cands: Vec<String> = names.to_vec();
    let mut index = 1;
    loop {
        let prefix = target.get(..index)?;
        let mut next = Vec::new();
        for name in &cands {
            let short = name.split('/').last().unwrap().to_lowercase();
            if short.len() > index {
                if short.get(..index)? == prefix {
                    next.push(name.clone());
                }
            }
        }
        if next.is_empty() {
            return Some(vec![]);
        }
        if index >= target.len() {
            return Some(next);
        }
        cands = next;
        index += 1;
    }
}

struct Gen(u64);

impl Gen {
    fn next(&mut self) -> u64 {
        self.0 = self.0.wrapping_mul(6364136223846793005).wrapping_add(1442695040888963407);
        self.0 >> 33
    }
    fn word(&mut self, max: u64) -> String {
        let alphabet = ['a', 'b', 'A', 'B', 'é', 'É', '/', ' ', 'ß'];
        let n = self.next() % (max + 1);
        (0..n).map(|_| alphabet[(self.next() % alphabet.len() as u64) as usize]).collect()
    }
}

#[test]
fn search_agrees_with_stepwise_narrowing() {
    let mut g = Gen(7);
    for _ in 0..3000 {
        let count = g.next() % 5;
        let names: Vec<String> = (0..count).map(|_| g.word(6)).collect();
        let target = if g.next() % 6 == 0 && !names.is_empty() {
            names[(g.next() % names.len() as u64) as usize].clone()
        } else {
            g.word(3)
        };
        assert_eq!(try_search(&names, &target), stepwise(&names, &target), "{:?} {:?}", names, target);
    }
}
