use vstd::prelude::*;

verus! {

/// High-level tasks that a hierarchical task network breaks down.
#[derive(Debug, Clone, Copy, PartialEq, Eq, Hash, Structural)]
pub enum HTNTask {
    ConquestCampaign,
    DiplomaticCampaign,
    EconomicDevelopment,
    TechnologicalAdvancement,
    DefensivePreparation,
}

/// Actions that a plan hands over to be carried out directly.
#[derive(Debug, Clone, Copy, PartialEq, Eq, Hash, Structural)]
pub enum PrimitiveActionType {
    BuildArmy,
    ExpandTerritory,
    ResearchTechnology,
    EstablishTrade,
    BuildInfrastructure,
    FormAlliance,
    DeclareWar,
    DefendTerritory,
}

/// A step of a method: a primitive action, or another task to break down in its place.
#[derive(Debug, Clone, Copy, PartialEq, Eq, Structural)]
pub enum HTNSubtask {
    PrimitiveAction(PrimitiveActionType),
    CompoundTask(HTNTask),
}

/// A precondition of a method. Amounts of gold and military strength are whole numbers.
#[derive(Debug, Clone)]
pub enum TaskCondition {
    HasGold(i64),
    HasMilitaryStrength(i64),
    HasCities(usize),
    HasTechnology(String),
    HasEnemies,
    HasAllies,
    TurnGreaterThan(u32),
}

/// One way to accomplish a task: when all preconditions hold, its subtasks in order.
#[derive(Debug, Clone)]
pub struct HTNMethod {
    pub name: String,
    pub preconditions: Vec<TaskCondition>,
    pub subtasks: Vec<HTNSubtask>,
}

/// The methods of a task, tried in order.
#[derive(Debug, Clone)]
pub struct TaskNetwork {
    pub methods: Vec<HTNMethod>,
}

/// What the planner reads of a civilization. Gold and military strength are taken
/// rounded down to whole numbers, which decides `>=` against a whole threshold as the
/// exact amounts would.
#[derive(Debug, Clone)]
pub struct CivPlanningFacts {
    pub gold: i64,
    pub military_strength: i64,
    pub city_count: usize,
    pub known_technologies: Vec<String>,
}

/// Breaks high-level tasks down into primitive actions through fixed task networks.
#[derive(Debug, Clone)]
pub struct HTNPlanner {
    task_network: Vec<(HTNTask, TaskNetwork)>,
}

/// The depth of a task in the task hierarchy: a method of a task may only use tasks of
/// lower depth, which keeps every breakdown finite.
pub open spec fn task_rank(t: HTNTask) -> nat {
    match t {
        HTNTask::ConquestCampaign => 1,
        _ => 0,
    }
}

/// Whether a civilization knows the technology `tech`.
pub open spec fn knows_technology(civ: CivPlanningFacts, tech: Seq<char>) -> bool {
    exists|i: int| 0 <= i < civ.known_technologies@.len() && (#[trigger] civ.known_technologies@[i])@ == tech
}

/// Whether `condition` holds of `civ` on turn `turn`. Enmity and alliance are not
/// tracked, so those conditions never hold.
pub open spec fn condition_holds(condition: TaskCondition, civ: CivPlanningFacts, turn: u32) -> bool {
    match condition {
        TaskCondition::HasGold(amount) => civ.gold >= amount,
        TaskCondition::HasMilitaryStrength(strength) => civ.military_strength >= strength,
        TaskCondition::HasCities(count) => civ.city_count >= count,
        TaskCondition::HasTechnology(tech) => knows_technology(civ, tech@),
        TaskCondition::HasEnemies => false,
        TaskCondition::HasAllies => false,
        TaskCondition::TurnGreaterThan(t) => turn > t,
    }
}

/// Whether `method` applies: the civilization is known and every precondition holds.
pub open spec fn method_applies(method: HTNMethod, civ: Option<CivPlanningFacts>, turn: u32) -> bool {
    match civ {
        None => false,
        Some(c) => forall|i: int| 0 <= i < method.preconditions@.len()
            ==> condition_holds(#[trigger] method.preconditions@[i], c, turn),
    }
}

/// The first method at or after `i` that applies.
pub open spec fn first_applicable_from(methods: Seq<HTNMethod>, civ: Option<CivPlanningFacts>, turn: u32, i: int) -> Option<int>
    decreases methods.len() - i,
{
    if i < 0 || i >= methods.len() {
        None
    } else if method_applies(methods[i], civ, turn) {
        Some(i)
    } else {
        first_applicable_from(methods, civ, turn, i + 1)
    }
}

/// The network of `task`: the first entry for it.
pub open spec fn network_of(nets: Seq<(HTNTask, TaskNetwork)>, task: HTNTask) -> Option<TaskNetwork>
    decreases nets.len(),
{
    if nets.len() == 0 {
        None
    } else if nets[0].0 == task {
        Some(nets[0].1)
    } else {
        network_of(nets.drop_first(), task)
    }
}

/// The primitive actions that `task` breaks down into: those of the first applicable
/// method of its network, each compound step replaced by its own breakdown; nothing when
/// the task has no network or no method applies.
pub open spec fn plan_of(nets: Seq<(HTNTask, TaskNetwork)>, task: HTNTask, civ: Option<CivPlanningFacts>, turn: u32) -> Seq<PrimitiveActionType>
    decreases task_rank(task) + 1, 0nat,
{
    match network_of(nets, task) {
        None => Seq::empty(),
        Some(net) => match first_applicable_from(net.methods@, civ, turn, 0) {
            None => Seq::empty(),
            Some(m) => expand(nets, net.methods@[m].subtasks@, civ, turn, task_rank(task)),
        },
    }
}

/// The primitive actions of a list of steps of a method of a task of depth `bound`.
pub open spec fn expand(nets: Seq<(HTNTask, TaskNetwork)>, steps: Seq<HTNSubtask>, civ: Option<CivPlanningFacts>, turn: u32, bound: nat) -> Seq<PrimitiveActionType>
    decreases bound, steps.len(),
{
    if steps.len() == 0 {
        Seq::empty()
    } else {
        expand(nets, steps.drop_last(), civ, turn, bound) + match steps.last() {
            HTNSubtask::PrimitiveAction(p) => seq![p],
            HTNSubtask::CompoundTask(c) => if task_rank(c) < bound {
                plan_of(nets, c, civ, turn)
            } else {
                Seq::empty()
            },
        }
    }
}

/// Every compound step of every method of a task's network is a task of lower depth.
pub open spec fn networks_ranked(nets: Seq<(HTNTask, TaskNetwork)>) -> bool {
    forall|n: int, m: int, k: int|
        0 <= n < nets.len() && 0 <= m < nets[n].1.methods@.len() && 0 <= k < nets[n].1.methods@[m].subtasks@.len()
        ==> match #[trigger] nets[n].1.methods@[m].subtasks@[k] {
            HTNSubtask::CompoundTask(c) => task_rank(c) < task_rank(nets[n].0),
            HTNSubtask::PrimitiveAction(_) => true,
        }
}

proof fn lemma_network_of<'a>(nets: Seq<(HTNTask, TaskNetwork)>, task: HTNTask)
    ensures
        match network_of(nets, task) {
            Some(net) => exists|n: int| 0 <= n < nets.len() && nets[n].0 == task && nets[n].1 == net
                && forall|j: int| 0 <= j < n ==> (#[trigger] nets[j]).0 != task,
            None => forall|j: int| 0 <= j < nets.len() ==> (#[trigger] nets[j]).0 != task,
        },
    decreases nets.len(),
{
    if nets.len() > 0 && nets[0].0 != task {
        let rest = nets.drop_first();
        lemma_network_of(rest, task);
        match network_of(rest, task) {
            Some(net) => {
                let n = choose|n: int| 0 <= n < rest.len() && rest[n].0 == task && rest[n].1 == net
                    && forall|j: int| 0 <= j < n ==> (#[trigger] rest[j]).0 != task;
                assert(nets[n + 1] == rest[n]);
                assert forall|j: int| 0 <= j < n + 1 implies (#[trigger] nets[j]).0 != task by {
                    if j > 0 {
                        assert(nets[j] == rest[j - 1]);
                    }
                }
            },
            None => {
                assert forall|j: int| 0 <= j < nets.len() implies (#[trigger] nets[j]).0 != task by {
                    if j > 0 {
                        assert(nets[j] == rest[j - 1]);
                    }
                }
            },
        }
    } else if nets.len() > 0 {
        assert(nets[0].0 == task);
    }
}

proof fn lemma_first_applicable_from(methods: Seq<HTNMethod>, civ: Option<CivPlanningFacts>, turn: u32, i: int)
    requires
        0 <= i <= methods.len(),
    ensures
        match first_applicable_from(methods, civ, turn, i) {
            Some(k) => i <= k < methods.len() && method_applies(methods[k], civ, turn)
                && forall|j: int| i <= j < k ==> !method_applies(#[trigger] methods[j], civ, turn),
            None => forall|j: int| i <= j < methods.len() ==> !method_applies(#[trigger] methods[j], civ, turn),
        },
    decreases methods.len() - i,
{
    if i < methods.len() && !method_applies(methods[i], civ, turn) {
        lemma_first_applicable_from(methods, civ, turn, i + 1);
    }
}

/// Whether `civ` knows the technology `tech`.
pub fn knows_technology_exec(civ: &CivPlanningFacts, tech: &String) -> (b: bool)
    ensures
        b == knows_technology(*civ, tech@),
{
    let mut i: usize = 0;
    while i < civ.known_technologies.len()
        invariant
            i <= civ.known_technologies@.len(),
            forall|j: int| 0 <= j < i ==> (#[trigger] civ.known_technologies@[j])@ != tech@,
        decreases civ.known_technologies@.len() - i,
    {
        if civ.known_technologies[i] == *tech {
            return true;
        }
        i = i + 1;
    }
    false
}

impl HTNPlanner {
    /// The planner's task networks are ranked.
    pub closed spec fn wf(&self) -> bool {
        networks_ranked(self.task_network@)
    }

    /// The task networks, in the order they are looked up.
    pub closed spec fn networks(&self) -> Seq<(HTNTask, TaskNetwork)> {
        self.task_network@
    }

    /// Whether `condition` holds of `civ` on turn `turn`.
    pub fn evaluate_condition(&self, condition: &TaskCondition, civ: &CivPlanningFacts, turn: u32) -> (b: bool)
        ensures
            b == condition_holds(*condition, *civ, turn),
    {
        match condition {
            TaskCondition::HasGold(amount) => civ.gold >= *amount,
            TaskCondition::HasMilitaryStrength(strength) => civ.military_strength >= *strength,
            TaskCondition::HasCities(count) => civ.city_count >= *count,
            TaskCondition::HasTechnology(tech) => knows_technology_exec(civ, tech),
            TaskCondition::HasEnemies => false,
            TaskCondition::HasAllies => false,
            TaskCondition::TurnGreaterThan(t) => turn > *t,
        }
    }

    /// Whether `method` applies to `civ` on turn `turn`: the civilization is known and
    /// every precondition holds.
    pub fn method_applicable(&self, method: &HTNMethod, civ: &Option<CivPlanningFacts>, turn: u32) -> (b: bool)
        ensures
            b == method_applies(*method, *civ, turn),
    {
        match civ {
            None => false,
            Some(c) => {
                let mut i: usize = 0;
                while i < method.preconditions.len()
                    invariant
                        *civ == Some(*c),
                        i <= method.preconditions@.len(),
                        forall|j: int| 0 <= j < i ==> condition_holds(#[trigger] method.preconditions@[j], *c, turn),
                    decreases method.preconditions@.len() - i,
                {
                    if !self.evaluate_condition(&method.preconditions[i], c, turn) {
                        proof {
                            assert(!condition_holds(method.preconditions@[i as int], *c, turn));
                        }
                        return false;
                    }
                    i = i + 1;
                }
                true
            },
        }
    }

    /// The primitive actions that `task` breaks down into for `civ` on turn `turn`:
    /// those of the first applicable method of the task's network, with each compound
    /// step replaced by its own breakdown, in order. Empty when the task has no network,
    /// no method applies, or the civilization is unknown.
    pub fn decompose_task(&self, task: HTNTask, civ: &Option<CivPlanningFacts>, turn: u32) -> (plan: Vec<PrimitiveActionType>)
        requires
            self.wf(),
        ensures
            plan@ == plan_of(self.networks(), task, *civ, turn),
        decreases task_rank(task) + 1, 0nat,
    {
        proof { lemma_network_of(self.task_network@, task); }
        let mut n: usize = 0;
        while n < self.task_network.len()
            invariant
                self.wf(),
                n <= self.task_network@.len(),
                match network_of(self.task_network@, task) {
                    Some(net) => exists|n: int| 0 <= n < self.task_network@.len() && self.task_network@[n].0 == task && self.task_network@[n].1 == net
                        && forall|j: int| 0 <= j < n ==> (#[trigger] self.task_network@[j]).0 != task,
                    None => forall|j: int| 0 <= j < self.task_network@.len() ==> (#[trigger] self.task_network@[j]).0 != task,
                },
                forall|j: int| 0 <= j < n ==> (#[trigger] self.task_network@[j]).0 != task,
            decreases self.task_network@.len() - n,
        {
            if self.task_network[n].0 == task {
                proof {
                    let nets = self.task_network@;
                    match network_of(nets, task) {
                        Some(net) => {
                            let k = choose|k: int| 0 <= k < nets.len() && nets[k].0 == task && nets[k].1 == net
                                && forall|j: int| 0 <= j < k ==> (#[trigger] nets[j]).0 != task;
                            assert(k == n);
                        },
                        None => {
                            assert(nets[n as int].0 != task);
                        },
                    }
                }
                return self.execute_network(&self.task_network[n].1, civ, turn, Ghost(n as int));
            }
            n = n + 1;
        }
        Vec::new()
    }

    /// The breakdown by the first method of the `n`th network that applies; empty when none does.
    fn execute_network(&self, network: &TaskNetwork, civ: &Option<CivPlanningFacts>, turn: u32, Ghost(n): Ghost<int>) -> (plan: Vec<PrimitiveActionType>)
        requires
            self.wf(),
            0 <= n < self.task_network@.len(),
            self.task_network@[n].1 == *network,
        ensures
            plan@ == match first_applicable_from(network.methods@, *civ, turn, 0) {
                None => Seq::empty(),
                Some(m) => expand(self.networks(), network.methods@[m].subtasks@, *civ, turn, task_rank(self.task_network@[n].0)),
            },
        decreases task_rank(self.task_network@[n].0), 2nat,
    {
        proof { lemma_first_applicable_from(network.methods@, *civ, turn, 0); }
        let mut m: usize = 0;
        while m < network.methods.len()
            invariant
                self.wf(),
                0 <= n < self.task_network@.len(),
                self.task_network@[n].1 == *network,
                match first_applicable_from(network.methods@, *civ, turn, 0) {
                    Some(k) => 0 <= k < network.methods@.len() && method_applies(network.methods@[k], *civ, turn)
                        && forall|j: int| 0 <= j < k ==> !method_applies(#[trigger] network.methods@[j], *civ, turn),
                    None => forall|j: int| 0 <= j < network.methods@.len() ==> !method_applies(#[trigger] network.methods@[j], *civ, turn),
                },
                m <= network.methods@.len(),
                forall|j: int| 0 <= j < m ==> !method_applies(#[trigger] network.methods@[j], *civ, turn),
            decreases network.methods@.len() - m,
        {
            if self.method_applicable(&network.methods[m], civ, turn) {
                proof {
                    match first_applicable_from(network.methods@, *civ, turn, 0) {
                        Some(k) => {
                            assert(k == m);
                        },
                        None => {
                            assert(!method_applies(network.methods@[m as int], *civ, turn));
                        },
                    }
                }
                return self.decompose_method(&network.methods[m], civ, turn, Ghost(n), Ghost(m as int));
            }
            m = m + 1;
        }
        Vec::new()
    }

    /// The primitive actions of the steps of the `m`th method of the `n`th network.
    fn decompose_method(&self, method: &HTNMethod, civ: &Option<CivPlanningFacts>, turn: u32, Ghost(n): Ghost<int>, Ghost(m): Ghost<int>) -> (plan: Vec<PrimitiveActionType>)
        requires
            self.wf(),
            0 <= n < self.task_network@.len(),
            0 <= m < self.task_network@[n].1.methods@.len(),
            self.task_network@[n].1.methods@[m] == *method,
        ensures
            plan@ == expand(self.networks(), method.subtasks@, *civ, turn, task_rank(self.task_network@[n].0)),
        decreases task_rank(self.task_network@[n].0), 1nat,
    {
        let ghost bound = task_rank(self.task_network@[n].0);
        let ghost steps = method.subtasks@;
        let mut actions: Vec<PrimitiveActionType> = Vec::new();
        let mut k: usize = 0;
        while k < method.subtasks.len()
            invariant
                self.wf(),
                0 <= n < self.task_network@.len(),
                0 <= m < self.task_network@[n].1.methods@.len(),
                self.task_network@[n].1.methods@[m] == *method,
                bound == task_rank(self.task_network@[n].0),
                steps == method.subtasks@,
                k <= steps.len(),
                actions@ == expand(self.networks(), steps.take(k as int), *civ, turn, bound),
            decreases steps.len() - k,
        {
            proof {
                assert(steps.take(k + 1).drop_last() =~= steps.take(k as int));
                assert(steps.take(k + 1).last() == steps[k as int]);
            }
            match method.subtasks[k] {
                HTNSubtask::PrimitiveAction(p) => {
                    actions.push(p);
                },
                HTNSubtask::CompoundTask(c) => {
                    proof {
                        assert(self.task_network@[n].1.methods@[m].subtasks@[k as int] == HTNSubtask::CompoundTask(c));
                    }
                    let mut sub = self.decompose_task(c, civ, turn);
                    actions.append(&mut sub);
                },
            }
            k = k + 1;
        }
        proof {
            assert(steps.take(k as int) =~= steps);
        }
        actions
    }
}

/// A method with the given name, preconditions and steps.
pub open spec fn is_method(m: HTNMethod, name: Seq<char>, pre: Seq<TaskCondition>, steps: Seq<HTNSubtask>) -> bool {
    m.name@ == name && m.preconditions@ == pre && m.subtasks@ == steps
}

/// The planner's fixed task networks:
/// - a conquest campaign, with strength 50 and 100 gold, builds an army, researches and
///   declares war; failing that, with a city, it builds an army and infrastructure and
///   develops the economy;
/// - a diplomatic campaign, after turn 10, establishes trade and forms an alliance;
/// - economic development, with a city, builds infrastructure, establishes trade and
///   expands;
/// - technological advancement, with 50 gold, researches and builds infrastructure;
/// - defensive preparation, facing enemies, builds an army, defends and forms an alliance.
pub open spec fn standard_networks(nets: Seq<(HTNTask, TaskNetwork)>) -> bool {
    &&& nets.len() == 5
    &&& nets[0].0 == HTNTask::ConquestCampaign
    &&& nets[0].1.methods@.len() == 2
    &&& is_method(nets[0].1.methods@[0], "aggressive_conquest"@,
            seq![TaskCondition::HasMilitaryStrength(50), TaskCondition::HasGold(100)],
            seq![HTNSubtask::PrimitiveAction(PrimitiveActionType::BuildArmy),
                HTNSubtask::PrimitiveAction(PrimitiveActionType::ResearchTechnology),
                HTNSubtask::PrimitiveAction(PrimitiveActionType::DeclareWar)])
    &&& is_method(nets[0].1.methods@[1], "preparation_phase"@,
            seq![TaskCondition::HasCities(1)],
            seq![HTNSubtask::PrimitiveAction(PrimitiveActionType::BuildArmy),
                HTNSubtask::PrimitiveAction(PrimitiveActionType::BuildInfrastructure),
                HTNSubtask::CompoundTask(HTNTask::EconomicDevelopment)])
    &&& nets[1].0 == HTNTask::DiplomaticCampaign
    &&& nets[1].1.methods@.len() == 1
    &&& is_method(nets[1].1.methods@[0], "alliance_building"@,
            seq![TaskCondition::TurnGreaterThan(10)],
            seq![HTNSubtask::PrimitiveAction(PrimitiveActionType::EstablishTrade),
                HTNSubtask::PrimitiveAction(PrimitiveActionType::FormAlliance)])
    &&& nets[2].0 == HTNTask::EconomicDevelopment
    &&& nets[2].1.methods@.len() == 1
    &&& is_method(nets[2].1.methods@[0], "infrastructure_focus"@,
            seq![TaskCondition::HasCities(1)],
            seq![HTNSubtask::PrimitiveAction(PrimitiveActionType::BuildInfrastructure),
                HTNSubtask::PrimitiveAction(PrimitiveActionType::EstablishTrade),
                HTNSubtask::PrimitiveAction(PrimitiveActionType::ExpandTerritory)])
    &&& nets[3].0 == HTNTask::TechnologicalAdvancement
    &&& nets[3].1.methods@.len() == 1
    &&& is_method(nets[3].1.methods@[0], "research_focus"@,
            seq![TaskCondition::HasGold(50)],
            seq![HTNSubtask::PrimitiveAction(PrimitiveActionType::ResearchTechnology),
                HTNSubtask::PrimitiveAction(PrimitiveActionType::BuildInfrastructure)])
    &&& nets[4].0 == HTNTask::DefensivePreparation
    &&& nets[4].1.methods@.len() == 1
    &&& is_method(nets[4].1.methods@[0], "defensive_buildup"@,
            seq![TaskCondition::HasEnemies],
            seq![HTNSubtask::PrimitiveAction(PrimitiveActionType::BuildArmy),
                HTNSubtask::PrimitiveAction(PrimitiveActionType::DefendTerritory),
                HTNSubtask::PrimitiveAction(PrimitiveActionType::FormAlliance)])
}

fn method(name: &str, preconditions: Vec<TaskCondition>, subtasks: Vec<HTNSubtask>) -> (m: HTNMethod)
    ensures
        m.name@ == name@,
        m.preconditions@ == preconditions@,
        m.subtasks@ == subtasks@,
{
    HTNMethod { name: String::from_str(name), preconditions, subtasks }
}

fn single_network(m: HTNMethod) -> (n: TaskNetwork)
    ensures
        n.methods@ == seq![m],
{
    let mut methods = Vec::new();
    methods.push(m);
    TaskNetwork { methods }
}

impl HTNPlanner {
    /// A planner with the standard task networks.
    pub fn new() -> (p: HTNPlanner)
        ensures
            p.wf(),
            standard_networks(p.networks()),
    {
        HTNPlanner { task_network: Self::create_task_networks() }
    }

    fn create_task_networks() -> (nets: Vec<(HTNTask, TaskNetwork)>)
        ensures
            networks_ranked(nets@),
            standard_networks(nets@),
    {
        let mut nets: Vec<(HTNTask, TaskNetwork)> = Vec::new();

        let mut conquest: Vec<HTNMethod> = Vec::new();
        conquest.push(method("aggressive_conquest",
            vec![TaskCondition::HasMilitaryStrength(50), TaskCondition::HasGold(100)],
            vec![HTNSubtask::PrimitiveAction(PrimitiveActionType::BuildArmy),
                HTNSubtask::PrimitiveAction(PrimitiveActionType::ResearchTechnology),
                HTNSubtask::PrimitiveAction(PrimitiveActionType::DeclareWar)]));
        conquest.push(method("preparation_phase",
            vec![TaskCondition::HasCities(1)],
            vec![HTNSubtask::PrimitiveAction(PrimitiveActionType::BuildArmy),
                HTNSubtask::PrimitiveAction(PrimitiveActionType::BuildInfrastructure),
                HTNSubtask::CompoundTask(HTNTask::EconomicDevelopment)]));
        nets.push((HTNTask::ConquestCampaign, TaskNetwork { methods: conquest }));

        nets.push((HTNTask::DiplomaticCampaign, single_network(method("alliance_building",
            vec![TaskCondition::TurnGreaterThan(10)],
            vec![HTNSubtask::PrimitiveAction(PrimitiveActionType::EstablishTrade),
                HTNSubtask::PrimitiveAction(PrimitiveActionType::FormAlliance)]))));

        nets.push((HTNTask::EconomicDevelopment, single_network(method("infrastructure_focus",
            vec![TaskCondition::HasCities(1)],
            vec![HTNSubtask::PrimitiveAction(PrimitiveActionType::BuildInfrastructure),
                HTNSubtask::PrimitiveAction(PrimitiveActionType::EstablishTrade),
                HTNSubtask::PrimitiveAction(PrimitiveActionType::ExpandTerritory)]))));

        nets.push((HTNTask::TechnologicalAdvancement, single_network(method("research_focus",
            vec![TaskCondition::HasGold(50)],
            vec![HTNSubtask::PrimitiveAction(PrimitiveActionType::ResearchTechnology),
                HTNSubtask::PrimitiveAction(PrimitiveActionType::BuildInfrastructure)]))));

        nets.push((HTNTask::DefensivePreparation, single_network(method("defensive_buildup",
            vec![TaskCondition::HasEnemies],
            vec![HTNSubtask::PrimitiveAction(PrimitiveActionType::BuildArmy),
                HTNSubtask::PrimitiveAction(PrimitiveActionType::DefendTerritory),
                HTNSubtask::PrimitiveAction(PrimitiveActionType::FormAlliance)]))));

        proof {
            assert(nets@[0].1.methods@[1].preconditions@ =~= seq![TaskCondition::HasCities(1)]);
            assert(nets@[1].1.methods@[0].preconditions@ =~= seq![TaskCondition::TurnGreaterThan(10)]);
            assert(nets@[2].1.methods@[0].preconditions@ =~= seq![TaskCondition::HasCities(1)]);
            assert(nets@[3].1.methods@[0].preconditions@ =~= seq![TaskCondition::HasGold(50)]);
            assert(nets@[4].1.methods@[0].preconditions@ =~= seq![TaskCondition::HasEnemies]);
            assert(standard_networks(nets@));
            assert forall|n: int, m: int, k: int|
                0 <= n < nets@.len() && 0 <= m < nets@[n].1.methods@.len() && 0 <= k < nets@[n].1.methods@[m].subtasks@.len()
                implies match #[trigger] nets@[n].1.methods@[m].subtasks@[k] {
                    HTNSubtask::CompoundTask(c) => task_rank(c) < task_rank(nets@[n].0),
                    HTNSubtask::PrimitiveAction(_) => true,
                } by {
                if n == 0 && m == 1 && k == 2 {
                } else {
                    assert(nets@[n].1.methods@[m].subtasks@[k] is PrimitiveAction);
                }
            }
        }
        nets
    }
}

impl Default for HTNPlanner {
    fn default() -> (p: HTNPlanner)
        ensures
            p.wf(),
            standard_networks(p.networks()),
    {
        HTNPlanner::new()
    }
}

/// A civilization the planner knows nothing of gets no plan, whatever the task.
pub proof fn lemma_unknown_civilization_gets_no_plan(nets: Seq<(HTNTask, TaskNetwork)>, task: HTNTask, turn: u32)
    ensures
        plan_of(nets, task, None, turn) == Seq::<PrimitiveActionType>::empty(),
{
    match network_of(nets, task) {
        None => {},
        Some(net) => {
            lemma_first_applicable_from(net.methods@, None, turn, 0);
            match first_applicable_from(net.methods@, None, turn, 0) {
                None => {},
                Some(k) => {
                    assert(!method_applies(net.methods@[k], None, turn));
                },
            }
        },
    }
}

/// A planning condition holds as it reads: `HasTechnology(t)` exactly when `t` is one of
/// the civilization's known technologies, at any position of the list; `HasGold(a)` when
/// the civilization has at least `a` gold, `HasMilitaryStrength(m)` when its strength is
/// at least `m`, `HasCities(n)` when it has at least `n` cities, `TurnGreaterThan(t)`
/// when the turn is past `t`.
pub proof fn lemma_conditions_read_the_facts(condition: TaskCondition, civ: CivPlanningFacts, turn: u32)
    ensures
        condition matches TaskCondition::HasTechnology(t) ==> (condition_holds(condition, civ, turn)
            <==> exists|i: int| 0 <= i < civ.known_technologies@.len() && #[trigger] civ.known_technologies@[i]@ == t@),
        condition matches TaskCondition::HasGold(a) ==> (condition_holds(condition, civ, turn) <==> civ.gold >= a),
        condition matches TaskCondition::HasMilitaryStrength(m) ==> (condition_holds(condition, civ, turn) <==> civ.military_strength >= m),
        condition matches TaskCondition::HasCities(n) ==> (condition_holds(condition, civ, turn) <==> civ.city_count >= n),
        condition matches TaskCondition::TurnGreaterThan(t) ==> (condition_holds(condition, civ, turn) <==> turn > t),
{
}

/// Knowing a technology does not depend on where it stands in the list: a civilization
/// whose known technologies include `t` at any index `k` meets `HasTechnology(t)`.
pub proof fn lemma_any_known_technology_counts(civ: CivPlanningFacts, t: String, k: int, turn: u32)
    requires
        0 <= k < civ.known_technologies@.len(),
        civ.known_technologies@[k]@ == t@,
    ensures
        condition_holds(TaskCondition::HasTechnology(t), civ, turn),
{
    assert(civ.known_technologies@[k]@ == t@);
}

} // verus!
