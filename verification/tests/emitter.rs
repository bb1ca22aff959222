use bulloak::builder::translate;
use bulloak::config::Config;
use bulloak::emitter::Emitter;
use bulloak::error::Error;

fn scaffold(text: &str) -> Result<String, Error> {
    let cfg = Config::default();
    let hir = translate(text, &cfg)?;
    Ok(Emitter::new(&cfg).emit(&hir))
}

#[test]
fn one_child() {
    let file_contents =
        String::from("FileTest\n└── when something bad happens\n   └── it should not revert");

    assert_eq!(
        &scaffold(&file_contents).unwrap(),
        r"// SPDX-License-Identifier: UNLICENSED
pragma solidity 0.8.0;

contract FileTest {
  function test_WhenSomethingBadHappens() external {
    // it should not revert
  }
}"
    );

    // Test that "it should revert" actions change the test name.
    let file_contents = String::from(
        "FileTest\n└── when something bad happens\n   └── it should revert",
    );

    assert_eq!(
        &scaffold(&file_contents).unwrap(),
        r"// SPDX-License-Identifier: UNLICENSED
pragma solidity 0.8.0;

contract FileTest {
  function test_RevertWhen_SomethingBadHappens() external {
    // it should revert
  }
}"
    );
}

#[test]
fn actions_without_conditions() {
    let file_contents = String::from(
        "FileTest\n├── it should do st-ff\n└── It never reverts.",
    );

    assert_eq!(
        &scaffold(&file_contents).unwrap(),
        r"// SPDX-License-Identifier: UNLICENSED
pragma solidity 0.8.0;

contract FileTest {
  function test_ShouldDoSt_ff() external {
    // it should do st-ff
  }

  function test_NeverReverts_() external {
    // It never reverts.
  }
}"
    );

    let file_contents = String::from(
        "FileTest
├── it should do stuff
└── when something happens
    └── it should revert",
    );

    assert_eq!(
        &scaffold(&file_contents).unwrap(),
        r"// SPDX-License-Identifier: UNLICENSED
pragma solidity 0.8.0;

contract FileTest {
  function test_ShouldDoStuff() external {
    // it should do stuff
  }

  function test_RevertWhen_SomethingHappens() external {
    // it should revert
  }
}"
    );

    let file_contents = String::from(
        "FileTest
├── it should do stuff
├── when something happens
│   └── it should revert
└── it does everything",
    );

    assert_eq!(
        &scaffold(&file_contents).unwrap(),
        r"// SPDX-License-Identifier: UNLICENSED
pragma solidity 0.8.0;

contract FileTest {
  function test_ShouldDoStuff() external {
    // it should do stuff
  }

  function test_RevertWhen_SomethingHappens() external {
    // it should revert
  }

  function test_DoesEverything() external {
    // it does everything
  }
}"
    );
}

#[test]
fn unsanitized_input() {
    let file_contents =
        String::from("Fi-eTest\n└── when something bad happens\n   └── it should not revert");

    assert_eq!(
        &scaffold(&file_contents).unwrap(),
        r"// SPDX-License-Identifier: UNLICENSED
pragma solidity 0.8.0;

contract Fi_eTest {
  function test_WhenSomethingBadHappens() external {
    // it should not revert
  }
}"
    );
}

#[test]
fn indentation() {
    let file_contents =
        String::from("FileTest\n└── when something bad happens\n   └── it should not revert");

    assert_eq!(
        &scaffold(&file_contents).unwrap(),
        r"// SPDX-License-Identifier: UNLICENSED
pragma solidity 0.8.0;

contract FileTest {
  function test_WhenSomethingBadHappens() external {
    // it should not revert
  }
}"
    );
}

#[test]
fn with_vm_skip() {
    let file_contents = "FileTest\n└── when something bad happens\n   └── it should not revert";
    let mut cfg: Config = Config::default();
    cfg.emit_vm_skip = true;
    let hir = translate(file_contents, &cfg).unwrap();
    let emitted = Emitter::new(&cfg).emit(&hir);

    assert_eq!(
        emitted,
        r"// SPDX-License-Identifier: UNLICENSED
pragma solidity 0.8.0;

contract FileTest {
  function test_WhenSomethingBadHappens() external {
    // it should not revert
    vm.skip(true);
  }
}"
    );
}

#[test]
fn two_children() {
    let file_contents = String::from(
        r"TwoChildren_Test
├── when stuff called
│  └── it should revert
└── when not stuff called
   └── it should revert",
    );

    assert_eq!(
        &scaffold(&file_contents).unwrap(),
        r"// SPDX-License-Identifier: UNLICENSED
pragma solidity 0.8.0;

contract TwoChildren_Test {
  function test_RevertWhen_StuffCalled() external {
    // it should revert
  }

  function test_RevertWhen_NotStuffCalled() external {
    // it should revert
  }
}"
    );
}

#[test]
fn action_with_sibling_condition() {
    let file_contents = String::from(
        r"
Foo_Test
└── when stuff called
    ├── It should do stuff.
    ├── when a called
    │   └── it should revert
    ├── It should do more.
    └── when b called
        └── it should not revert",
    );

    assert_eq!(
        &scaffold(&file_contents).unwrap(),
        r"// SPDX-License-Identifier: UNLICENSED
pragma solidity 0.8.0;

contract Foo_Test {
  modifier whenStuffCalled() {
    _;
  }

  function test_WhenStuffCalled()
    external
    whenStuffCalled
  {
    // It should do stuff.
    // It should do more.
  }

  function test_RevertWhen_ACalled()
    external
    whenStuffCalled
  {
    // it should revert
  }

  function test_WhenBCalled()
    external
    whenStuffCalled
  {
    // it should not revert
  }
}"
    );
}

#[test]
fn action_recollection() {
    let file_contents = String::from(
        r"ActionsTest
└── when stuff called
   ├── it should do stuff
   ├── it should be cool
   └── it might break
",
    );

    assert_eq!(
        &scaffold(&file_contents).unwrap(),
        r"// SPDX-License-Identifier: UNLICENSED
pragma solidity 0.8.0;

contract ActionsTest {
  function test_WhenStuffCalled() external {
    // it should do stuff
    // it should be cool
    // it might break
  }
}"
    );
}

#[test]
fn first_action_revert_emits_revert_when() {
    let file_contents = String::from(
        r"ActionsTest
└── when stuff called
   ├── it should revert
   ├── it should be cool
   └── it might break
",
    );

    assert_eq!(
        &scaffold(&file_contents).unwrap(),
        r"// SPDX-License-Identifier: UNLICENSED
pragma solidity 0.8.0;

contract ActionsTest {
  function test_RevertWhen_StuffCalled() external {
    // it should revert
    // it should be cool
    // it might break
  }
}"
    );
}

#[test]
fn weird_it_should_revert_emits_revert_when() {
    let file_contents = String::from(
        r"ActionsTest
└── when stuff called
   └── IT sHould RevERT.
",
    );

    assert_eq!(
        &scaffold(&file_contents).unwrap(),
        r"// SPDX-License-Identifier: UNLICENSED
pragma solidity 0.8.0;

contract ActionsTest {
  function test_RevertWhen_StuffCalled() external {
    // IT sHould RevERT.
  }
}"
    );
}

#[test]
fn non_first_child_it_should_revert_doesnt_emit_revert_when() {
    let file_contents = String::from(
        r"ActionsTest
└── when stuff called
   ├── it should be cool
   ├── it should revert
   └── it might break
",
    );

    assert_eq!(
        &scaffold(&file_contents).unwrap(),
        r"// SPDX-License-Identifier: UNLICENSED
pragma solidity 0.8.0;

contract ActionsTest {
  function test_WhenStuffCalled() external {
    // it should be cool
    // it should revert
    // it might break
  }
}"
    );
}

#[test]
fn action_descriptions() {
    let file_contents = String::from(
        r"DescriptionsTest
└── when something bad happens
   └── it should try to revert
      ├── some stuff happened
      │  └── and that stuff
      └── was very _bad_",
    );

    assert_eq!(
        &scaffold(&file_contents).unwrap(),
        r"// SPDX-License-Identifier: UNLICENSED
pragma solidity 0.8.0;

contract DescriptionsTest {
  function test_WhenSomethingBadHappens() external {
    // it should try to revert
    //    some stuff happened
    //       and that stuff
    //    was very _bad_
  }
}"
    );
}

#[test]
fn deep_tree() {
    let file_contents = String::from(
        r#"DeepTest
├── when stuff called
│  └── it should revert
└── when not stuff called
   ├── when the deposit amount is zero
   │  └── it should revert
   └── when the deposit amount is not zero
      ├── when the number count is zero
      │  └── it should revert
      ├── when the asset is not a contract
      │  └── it should revert
      └── given the asset is a contract
          ├── when the asset misses the ERC-20 return value
          │  ├── it should create the child
          │  ├── it should perform the ERC-20 transfers
          │  └── it should emit a {MultipleChildren} event
          └── when the asset does not miss the ERC-20 return value
              ├── it should create the child
              └── it should emit a {MultipleChildren} event
                 ├── - Because the deposit should not be 0.
                 ├── - The number count is > 0.
                 └── - Events should be emitted."#,
    );

    assert_eq!(
        &scaffold(&file_contents).unwrap(),
        r"// SPDX-License-Identifier: UNLICENSED
pragma solidity 0.8.0;

contract DeepTest {
  function test_RevertWhen_StuffCalled() external {
    // it should revert
  }

  modifier whenNotStuffCalled() {
    _;
  }

  function test_RevertWhen_TheDepositAmountIsZero()
    external
    whenNotStuffCalled
  {
    // it should revert
  }

  modifier whenTheDepositAmountIsNotZero() {
    _;
  }

  function test_RevertWhen_TheNumberCountIsZero()
    external
    whenNotStuffCalled
    whenTheDepositAmountIsNotZero
  {
    // it should revert
  }

  function test_RevertWhen_TheAssetIsNotAContract()
    external
    whenNotStuffCalled
    whenTheDepositAmountIsNotZero
  {
    // it should revert
  }

  modifier givenTheAssetIsAContract() {
    _;
  }

  function test_WhenTheAssetMissesTheERC_20ReturnValue()
    external
    whenNotStuffCalled
    whenTheDepositAmountIsNotZero
    givenTheAssetIsAContract
  {
    // it should create the child
    // it should perform the ERC-20 transfers
    // it should emit a {MultipleChildren} event
  }

  function test_WhenTheAssetDoesNotMissTheERC_20ReturnValue()
    external
    whenNotStuffCalled
    whenTheDepositAmountIsNotZero
    givenTheAssetIsAContract
  {
    // it should create the child
    // it should emit a {MultipleChildren} event
    //    - Because the deposit should not be 0.
    //    - The number count is > 0.
    //    - Events should be emitted.
  }
}"
    );
}
